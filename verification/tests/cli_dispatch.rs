use todo_store::cli::{AddArgs, Command, CommandKind, EditArgs, Interaction, RemoveArgs};
use todo_store::store::{EditRequest, RemoveRequest, StoreError};
use todo_store::task::{Timestamp, TodoItem};

fn task(id: u128, short: &str, completed: bool) -> TodoItem {
    TodoItem {
        id,
        short_desc: short.to_string(),
        long_desc: None,
        completed,
        created_at: Timestamp { secs: 0, nanos: 0, offset_secs: 0 },
    }
}

#[test]
fn of_kind_builds_the_default_commands() {
    match Command::of_kind(CommandKind::Add) {
        Command::Add(a) => assert!(a.short_desc.is_none()),
        _ => panic!("wrong command"),
    }
    match Command::of_kind(CommandKind::Edit) {
        Command::Edit(e) => assert!(!e.full_edit),
        _ => panic!("wrong command"),
    }
    match Command::of_kind(CommandKind::Remove) {
        Command::Remove(m) => assert!(!m.all),
        _ => panic!("wrong command"),
    }
    match Command::of_kind(CommandKind::List) {
        Command::List => {},
        _ => panic!("wrong command"),
    }
}

#[test]
fn list_command_reports_lines_and_skips_saving() {
    let cmd = Command::List;
    let outcome = cmd.handle_command(Vec::new(), Interaction::NoPrompts).unwrap();
    assert!(!outcome.save);
    assert!(!outcome.retry);
    assert_eq!(outcome.lines, vec!["No todos found.".to_string()]);
    assert_eq!(outcome.todos.len(), 0);
}

#[test]
fn direct_add_uses_the_argument_and_no_long_description() {
    let cmd = Command::Add(AddArgs { short_desc: Some("from args".to_string()) });
    let outcome = cmd.handle_command(vec![task(1, "old", true)], Interaction::NoPrompts).unwrap();
    assert!(outcome.save);
    assert_eq!(outcome.todos.len(), 2);
    assert_eq!(outcome.todos[1].short_desc, "from args");
    assert_eq!(outcome.todos[1].long_desc, None);
    assert!(!outcome.todos[1].completed);
}

#[test]
fn prompted_add_uses_the_resolved_texts() {
    let cmd = Command::Add(AddArgs { short_desc: None });
    let outcome = cmd
        .handle_command(
            Vec::new(),
            Interaction::AddPrompts {
                short_desc: "typed".to_string(),
                long_desc: Some("extra".to_string()),
            },
        )
        .unwrap();
    assert_eq!(outcome.todos.len(), 1);
    assert_eq!(outcome.todos[0].short_desc, "typed");
    assert_eq!(outcome.todos[0].long_desc.as_deref(), Some("extra"));
}

#[test]
fn quick_edit_command_overwrites_completion() {
    let cmd = Command::Edit(EditArgs { full_edit: false });
    let todos = vec![task(1, "A", true), task(2, "B", false), task(3, "C", true)];
    let outcome = cmd
        .handle_command(todos, Interaction::Edit(EditRequest::Quick { selected_ids: vec![2] }))
        .unwrap();
    assert!(outcome.save);
    assert!(!outcome.todos[0].completed);
    assert!(outcome.todos[1].completed);
    assert!(!outcome.todos[2].completed);
}

#[test]
fn full_edit_command_on_missing_id_fails() {
    let cmd = Command::Edit(EditArgs { full_edit: true });
    let r = cmd.handle_command(
        vec![task(1, "A", false)],
        Interaction::Edit(
            EditRequest::Full {
                id: 77,
                short_desc: "new".to_string(),
                long_desc: None,
                completed: true,
            },
        ),
    );
    assert!(matches!(r, Err(StoreError::SelectionNotFound)));
}

#[test]
fn remove_all_command_obeys_the_confirmation() {
    let three = || vec![task(1, "A", false), task(2, "B", false), task(3, "C", false)];
    let declined = Command::Remove(RemoveArgs { all: true })
        .handle_command(three(), Interaction::Remove(RemoveRequest::All { confirmed: false }))
        .unwrap();
    assert_eq!(declined.todos.len(), 3);
    assert!(!declined.save);
    let confirmed = Command::Remove(RemoveArgs { all: true })
        .handle_command(three(), Interaction::Remove(RemoveRequest::All { confirmed: true }))
        .unwrap();
    assert_eq!(confirmed.todos.len(), 0);
    assert!(confirmed.save);
}

#[test]
fn remove_selected_command_retries_on_decline_and_exits_on_empty() {
    let declined = Command::Remove(RemoveArgs { all: false })
        .handle_command(
            vec![task(1, "A", false)],
            Interaction::Remove(
                RemoveRequest::Selected { selected_ids: vec![1], confirmed: false },
            ),
        )
        .unwrap();
    assert!(declined.retry);
    assert!(!declined.save);
    assert_eq!(declined.todos.len(), 1);
    let empty = Command::Remove(RemoveArgs { all: false })
        .handle_command(
            vec![task(1, "A", false)],
            Interaction::Remove(RemoveRequest::Selected { selected_ids: vec![], confirmed: true }),
        )
        .unwrap();
    assert!(!empty.retry);
    assert!(!empty.save);
    assert_eq!(empty.todos.len(), 1);
}
