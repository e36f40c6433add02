use todo_store::store::{
    add_task, collection_contains_id, full_edit, handle_add, handle_list, handle_remove,
    quick_edit, remove_all, remove_round_decision, remove_selected, unused_id, EditRequest,
    RemoveDecision, RemoveOutcome, RemoveRequest, StoreError,
};
use todo_store::task::{Timestamp, TodoItem};

fn ts(secs: i64) -> Timestamp {
    Timestamp { secs, nanos: 0, offset_secs: 0 }
}

fn task(id: u128, short: &str, completed: bool) -> TodoItem {
    TodoItem {
        id,
        short_desc: short.to_string(),
        long_desc: None,
        completed,
        created_at: ts(1_000 + id as i64),
    }
}

#[test]
fn add_appends_fresh_incomplete_task() {
    let mut todos = vec![task(1, "one", true), task(2, "two", false)];
    handle_add(&mut todos, "three".to_string(), Some("details".to_string()));
    assert_eq!(todos.len(), 3);
    let new = &todos[2];
    assert!(!new.completed);
    assert_eq!(new.short_desc, "three");
    assert_eq!(new.long_desc.as_deref(), Some("details"));
    assert!(new.id != 1 && new.id != 2);
    assert_eq!(todos[0].short_desc, "one");
    assert_eq!(todos[0].id, 1);
    assert!(todos[0].completed);
    assert_eq!(todos[1].short_desc, "two");
    assert_eq!(todos[1].id, 2);
    assert!(!todos[1].completed);
}

#[test]
fn add_task_rejects_taken_id() {
    let mut todos = vec![task(7, "kept", false)];
    let added = add_task(&mut todos, 7, "dup".to_string(), None, ts(5));
    assert!(!added);
    assert_eq!(todos.len(), 1);
    assert_eq!(todos[0].short_desc, "kept");
    let added = add_task(&mut todos, 8, "new".to_string(), None, ts(5));
    assert!(added);
    assert_eq!(todos.len(), 2);
    assert_eq!(todos[1].id, 8);
}

#[test]
fn unused_id_is_unused() {
    let todos = vec![task(0, "a", false), task(1, "b", false), task(2, "c", false)];
    let id = unused_id(&todos);
    assert!(!collection_contains_id(&todos, id));
}

#[test]
fn quick_edit_rederives_completion_from_selection() {
    // A completed, B not completed, C completed; final selection {B}.
    let mut todos = vec![task(1, "A", true), task(2, "B", false), task(3, "C", true)];
    quick_edit(&mut todos, &vec![2]);
    assert!(!todos[0].completed);
    assert!(todos[1].completed);
    assert!(!todos[2].completed);
}

#[test]
fn quick_edit_empty_selection_marks_everything_incomplete() {
    let mut todos = vec![task(1, "A", true), task(2, "B", true)];
    quick_edit(&mut todos, &vec![]);
    assert!(!todos[0].completed);
    assert!(!todos[1].completed);
}

#[test]
fn edits_preserve_identity() {
    let mut todos = vec![task(1, "A", true), task(2, "B", false)];
    let before: Vec<(u128, Timestamp)> = todos.iter().map(|t| (t.id, t.created_at)).collect();
    quick_edit(&mut todos, &vec![1]);
    full_edit(&mut todos, 2, "B2".to_string(), Some("long".to_string()), true).unwrap();
    quick_edit(&mut todos, &vec![]);
    let after: Vec<(u128, Timestamp)> = todos.iter().map(|t| (t.id, t.created_at)).collect();
    assert_eq!(before, after);
}

#[test]
fn full_edit_replaces_by_id_not_position() {
    let mut todos = vec![task(1, "A", false), task(2, "B", false), task(3, "C", false)];
    let r = full_edit(&mut todos, 2, "B-new".to_string(), Some("notes".to_string()), true);
    assert!(r.is_ok());
    assert_eq!(todos[1].id, 2);
    assert_eq!(todos[1].short_desc, "B-new");
    assert_eq!(todos[1].long_desc.as_deref(), Some("notes"));
    assert!(todos[1].completed);
    assert_eq!(todos[1].created_at, ts(1_002));
    assert_eq!(todos[0].short_desc, "A");
    assert_eq!(todos[2].short_desc, "C");
}

#[test]
fn full_edit_unknown_id_is_selection_error() {
    let mut todos = vec![task(1, "A", false)];
    let r = full_edit(&mut todos, 99, "X".to_string(), None, false);
    assert_eq!(r, Err(StoreError::SelectionNotFound));
    assert_eq!(todos.len(), 1);
    assert_eq!(todos[0].short_desc, "A");
}

#[test]
fn remove_selected_keeps_order_of_the_rest() {
    let todos = vec![task(1, "A", false), task(2, "B", false), task(3, "C", false)];
    let next = remove_selected(&todos, &vec![2]);
    assert_eq!(next.len(), 2);
    assert_eq!(next[0].id, 1);
    assert_eq!(next[1].id, 3);
}

#[test]
fn remove_all_needs_confirmation() {
    let mut todos = vec![task(1, "A", false), task(2, "B", false), task(3, "C", false)];
    remove_all(&mut todos, false);
    assert_eq!(todos.len(), 3);
    remove_all(&mut todos, true);
    assert_eq!(todos.len(), 0);
}

#[test]
fn remove_round_decision_cases() {
    assert_eq!(remove_round_decision(0, false), RemoveDecision::Exit);
    assert_eq!(remove_round_decision(0, true), RemoveDecision::Exit);
    assert_eq!(remove_round_decision(2, true), RemoveDecision::Commit);
    assert_eq!(remove_round_decision(2, false), RemoveDecision::Retry);
}

#[test]
fn remove_with_empty_selection_is_a_no_op() {
    let mut todos = vec![task(1, "A", false), task(2, "B", false)];
    let outcome = handle_remove(
        &mut todos,
        RemoveRequest::Selected { selected_ids: vec![], confirmed: true },
    );
    assert_eq!(outcome, RemoveOutcome { save: false, retry: false });
    assert_eq!(todos.len(), 2);
}

#[test]
fn remove_declined_asks_again() {
    let mut todos = vec![task(1, "A", false)];
    let outcome = handle_remove(
        &mut todos,
        RemoveRequest::Selected { selected_ids: vec![1], confirmed: false },
    );
    assert_eq!(outcome, RemoveOutcome { save: false, retry: true });
    assert_eq!(todos.len(), 1);
}

#[test]
fn remove_confirmed_deletes_exactly_the_selection() {
    let mut todos = vec![task(1, "A", false), task(2, "B", false), task(3, "C", false)];
    let outcome = handle_remove(
        &mut todos,
        RemoveRequest::Selected { selected_ids: vec![1, 3], confirmed: true },
    );
    assert_eq!(outcome, RemoveOutcome { save: true, retry: false });
    assert_eq!(todos.len(), 1);
    assert_eq!(todos[0].id, 2);
}

#[test]
fn edit_request_quick_goes_through_handle_edit() {
    let mut todos = vec![task(1, "A", false), task(2, "B", true)];
    let r = todo_store::store::handle_edit(
        &mut todos,
        EditRequest::Quick { selected_ids: vec![1] },
    );
    assert!(r.is_ok());
    assert!(todos[0].completed);
    assert!(!todos[1].completed);
}

#[test]
fn list_on_empty_collection_is_the_single_no_todos_line() {
    let todos: Vec<TodoItem> = Vec::new();
    let lines = handle_list(&todos);
    assert_eq!(lines, vec!["No todos found.".to_string()]);
}

#[test]
fn list_renders_marker_description_and_date() {
    let todos = vec![
        TodoItem {
            id: 1,
            short_desc: "buy milk".to_string(),
            long_desc: None,
            completed: false,
            created_at: Timestamp { secs: 0, nanos: 0, offset_secs: 0 },
        },
        TodoItem {
            id: 2,
            short_desc: "done thing".to_string(),
            long_desc: None,
            completed: true,
            created_at: Timestamp { secs: 0, nanos: 0, offset_secs: 0 },
        },
    ];
    let lines = handle_list(&todos);
    assert_eq!(lines.len(), 2);
    assert_eq!(lines[0], "[ ] buy milk (Jan  1, 1970 12:00:00 AM)");
    assert_eq!(lines[1], "[x] done thing (Jan  1, 1970 12:00:00 AM)");
}

#[test]
fn formatted_date_honours_the_captured_offset() {
    let t = TodoItem {
        id: 1,
        short_desc: "x".to_string(),
        long_desc: None,
        completed: false,
        // 2021-03-14 01:59:26 UTC, shown one hour east.
        created_at: Timestamp { secs: 1_615_687_166, nanos: 0, offset_secs: 3_600 },
    };
    assert_eq!(t.get_formatted_date(), "Mar 14, 2021 02:59:26 AM");
}

#[test]
fn default_task_is_blank_and_incomplete() {
    let t = TodoItem::default();
    assert_eq!(t.short_desc, "");
    assert_eq!(t.long_desc, None);
    assert!(!t.completed);
}

#[test]
fn multi_select_summary_joins_descriptions() {
    assert_eq!(TodoItem::multi_select_summary(&vec![]), "");
    assert_eq!(TodoItem::multi_select_summary(&vec!["a".to_string()]), "a");
    assert_eq!(
        TodoItem::multi_select_summary(&vec![
            "buy milk".to_string(),
            "pay rent".to_string(),
            "call".to_string(),
        ]),
        "buy milk, pay rent, call"
    );
}

#[test]
fn captured_creation_instant_is_in_range() {
    let t = TodoItem::default();
    assert!(t.created_at.secs >= 0);
    assert!(t.created_at.nanos < 2_000_000_000);
    assert!(t.created_at.offset_secs > -86_400 && t.created_at.offset_secs < 86_400);
}

#[test]
fn empty_short_description_is_accepted() {
    let mut todos = Vec::new();
    handle_add(&mut todos, String::new(), None);
    assert_eq!(todos.len(), 1);
    assert_eq!(todos[0].short_desc, "");
}

#[test]
fn edit_on_empty_collection_does_not_crash() {
    let mut todos: Vec<TodoItem> = Vec::new();
    quick_edit(&mut todos, &vec![1, 2]);
    assert_eq!(todos.len(), 0);
    let r = full_edit(&mut todos, 1, "x".to_string(), None, false);
    assert_eq!(r, Err(StoreError::SelectionNotFound));
}
