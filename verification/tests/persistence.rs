use todo_store::codec::{load_from, parse_todos, save_to_string, PersistenceError, TODO_FILE_NAME};
use todo_store::task::{Timestamp, TodoItem};

fn task(
    id: u128,
    short: &str,
    long: Option<&str>,
    completed: bool,
    created_at: Timestamp,
) -> TodoItem {
    TodoItem {
        id,
        short_desc: short.to_string(),
        long_desc: long.map(|s| s.to_string()),
        completed,
        created_at,
    }
}

fn same_fields(a: &TodoItem, b: &TodoItem) -> bool {
    a.id == b.id && a.short_desc == b.short_desc && a.long_desc == b.long_desc && a.completed
        == b.completed && a.created_at == b.created_at
}

#[test]
fn file_name_is_stable() {
    assert_eq!(TODO_FILE_NAME, ".todos.txt");
}

#[test]
fn save_writes_the_documented_shape() {
    let todos = vec![
        task(5, "a", None, true, Timestamp { secs: 3, nanos: 4, offset_secs: -60 }),
    ];
    let text = save_to_string(&todos);
    assert_eq!(
        text,
        "[(id:5,short_desc:\"a\",long_desc:None,completed:true,created_at:(3,4,-60)),]"
    );
}

#[test]
fn save_escapes_quotes_and_backslashes() {
    let todos = vec![
        task(
            1,
            "say \"hi\" \\ now",
            Some("a\\b"),
            false,
            Timestamp { secs: 0, nanos: 0, offset_secs: 0 },
        ),
    ];
    let text = save_to_string(&todos);
    assert_eq!(
        text,
        "[(id:1,short_desc:\"say \\\"hi\\\" \\\\ now\",long_desc:Some(\"a\\\\b\"),completed:false,created_at:(0,0,0)),]"
    );
}

#[test]
fn round_trip_keeps_every_field() {
    let todos = vec![
        task(0, "", None, false, Timestamp { secs: 0, nanos: 0, offset_secs: 0 }),
        task(
            u128::MAX,
            "quote \" and \\ slash",
            Some(""),
            true,
            Timestamp { secs: 253_402_300_799, nanos: 1_999_999_999, offset_secs: -86_399 },
        ),
        task(
            42,
            "unicode: naïve 数",
            Some("long text, with (parens) and [brackets]"),
            false,
            Timestamp { secs: 1_615_687_166, nanos: 123, offset_secs: 86_399 },
        ),
    ];
    let text = save_to_string(&todos);
    let back = parse_todos(&text).unwrap();
    assert_eq!(back.len(), todos.len());
    for (a, b) in todos.iter().zip(back.iter()) {
        assert!(same_fields(a, b));
    }
}

#[test]
fn round_trip_of_the_empty_collection() {
    let todos: Vec<TodoItem> = Vec::new();
    let text = save_to_string(&todos);
    assert_eq!(text, "[]");
    let back = parse_todos(&text).unwrap();
    assert_eq!(back.len(), 0);
}

#[test]
fn missing_file_loads_as_empty_collection() {
    let loaded = load_from(None).unwrap();
    assert_eq!(loaded.len(), 0);
}

#[test]
fn present_file_is_parsed() {
    let todos = vec![task(9, "x", None, false, Timestamp { secs: 1, nanos: 2, offset_secs: 3 })];
    let text = save_to_string(&todos);
    let loaded = load_from(Some(&text)).unwrap();
    assert_eq!(loaded.len(), 1);
    assert!(same_fields(&loaded[0], &todos[0]));
}

#[test]
fn malformed_text_is_rejected() {
    assert_eq!(parse_todos(""), Err(PersistenceError::Malformed));
    assert_eq!(parse_todos("garbage"), Err(PersistenceError::Malformed));
    assert_eq!(parse_todos("["), Err(PersistenceError::Malformed));
    assert_eq!(parse_todos("[]trailing"), Err(PersistenceError::Malformed));
    assert_eq!(
        parse_todos("[(id:1,short_desc:\"a\",long_desc:None,completed:true,created_at:(3,4,-60))"),
        Err(PersistenceError::Malformed)
    );
    // An out-of-range timestamp is not a well-formed record.
    assert_eq!(
        parse_todos(
            "[(id:1,short_desc:\"a\",long_desc:None,completed:true,created_at:(-5,0,0)),]"
        ),
        Err(PersistenceError::Malformed)
    );
}

#[test]
fn parse_accepts_hand_written_text() {
    let text = "[(id:12,short_desc:\"call \\\"mom\\\"\",long_desc:Some(\"on sunday\"),completed:false,created_at:(100,5,3600)),(id:13,short_desc:\"pay rent\",long_desc:None,completed:true,created_at:(200,0,0)),]";
    let loaded = parse_todos(text).unwrap();
    assert_eq!(loaded.len(), 2);
    assert_eq!(loaded[0].id, 12);
    assert_eq!(loaded[0].short_desc, "call \"mom\"");
    assert_eq!(loaded[0].long_desc.as_deref(), Some("on sunday"));
    assert!(!loaded[0].completed);
    assert_eq!(loaded[0].created_at, Timestamp { secs: 100, nanos: 5, offset_secs: 3600 });
    assert_eq!(loaded[1].id, 13);
    assert!(loaded[1].completed);
    assert_eq!(loaded[1].long_desc, None);
}
