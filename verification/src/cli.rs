//! The command surface: the argument records the router fills in, the
//! commands themselves, and the dispatcher that runs one command over a
//! loaded collection together with the values the prompting collaborator
//! already resolved.

use vstd::prelude::*;

use crate::store;
use crate::store::{
    add_post, contains_id, full_edit_post, listing, quick_edit_post, removed, wf_tasks,
    EditRequest, RemoveRequest, StoreError,
};
use crate::task::TodoItem;

verus! {

/// Arguments of the add command: an optional direct short description.
/// When it is given, nothing is prompted and the long description stays absent.
#[derive(Debug)]
pub struct AddArgs {
    pub short_desc: Option<String>,
}

/// Arguments of the edit command.
#[derive(Debug)]
pub struct EditArgs {
    /// Edit the whole record; when unset, only completion flags are re-derived.
    pub full_edit: bool,
}

/// Arguments of the remove command.
#[derive(Debug)]
pub struct RemoveArgs {
    /// Remove every task (after confirmation) instead of a selection.
    pub all: bool,
}

/// One command of the tool.
#[derive(Debug)]
pub enum Command {
    /// Add a new todo to the list.
    Add(AddArgs),
    /// Edit an existing todo.
    Edit(EditArgs),
    /// Remove a todo from the list.
    Remove(RemoveArgs),
    /// List all todos.
    List,
}

/// The parsed command line: an optional subcommand; without one, the router
/// asks the user to pick a command interactively.
#[derive(Debug)]
pub struct Args {
    pub subcommand: Option<Command>,
}

/// The bare command names, in the order the interactive menu offers them.
#[derive(Debug, Clone, Copy, PartialEq, Eq, Structural)]
pub enum CommandKind {
    Add,
    Edit,
    Remove,
    List,
}

impl Command {
    /// The command a bare menu choice stands for, with default arguments.
    pub fn of_kind(kind: CommandKind) -> (r: Command)
        ensures
            kind == CommandKind::Add ==> (r matches Command::Add(a) && a.short_desc is None),
            kind == CommandKind::Edit ==> (r matches Command::Edit(e) && !e.full_edit),
            kind == CommandKind::Remove ==> (r matches Command::Remove(m) && !m.all),
            kind == CommandKind::List ==> r is List,
    {
        match kind {
            CommandKind::Add => Command::Add(AddArgs { short_desc: None }),
            CommandKind::Edit => Command::Edit(EditArgs { full_edit: false }),
            CommandKind::Remove => Command::Remove(RemoveArgs { all: false }),
            CommandKind::List => Command::List,
        }
    }
}

/// The values the prompting collaborator resolved for one command.  The
/// store never talks to a terminal: it takes these finished values.
#[derive(Debug)]
pub enum Interaction {
    /// For an add without a direct description: the prompted texts.
    AddPrompts { short_desc: String, long_desc: Option<String> },
    /// For an edit: the resolved request.
    Edit(EditRequest),
    /// For a remove: the resolved request of the last selection round.
    Remove(RemoveRequest),
    /// For a direct add or a listing, nothing is prompted.
    NoPrompts,
}

/// Whether the resolved values have the shape the command calls for.
pub open spec fn interaction_fits(cmd: Command, interaction: Interaction) -> bool {
    match cmd {
        Command::Add(a) => if a.short_desc is Some {
            interaction is NoPrompts
        } else {
            interaction matches Interaction::AddPrompts { .. }
        },
        Command::Edit(e) => if e.full_edit {
            interaction matches Interaction::Edit(EditRequest::Full { .. })
        } else {
            interaction matches Interaction::Edit(EditRequest::Quick { .. })
        },
        Command::Remove(m) => if m.all {
            interaction matches Interaction::Remove(RemoveRequest::All { .. })
        } else {
            interaction matches Interaction::Remove(RemoveRequest::Selected { .. })
        },
        Command::List => interaction is NoPrompts,
    }
}

/// What one dispatched command produced: the next collection, whether it is
/// to be persisted, whether the remove selection round is to be rerun, and
/// the lines to show (the listing's projection; empty for other commands).
#[derive(Debug)]
pub struct CommandOutcome {
    pub todos: Vec<TodoItem>,
    pub save: bool,
    pub retry: bool,
    pub lines: Vec<String>,
}

impl Command {
    /// Runs one command over the loaded collection and the already-resolved
    /// prompt values, and reports the next collection together with the
    /// persistence, retry and display decisions.
    pub fn handle_command(self, todos: Vec<TodoItem>, interaction: Interaction) -> (r: Result<
        CommandOutcome,
        StoreError,
    >)
        requires
            interaction_fits(self, interaction),
            wf_tasks(todos.deep_view()),
        ensures
            self is List ==> (r matches Ok(o) && o.todos@ == todos@ && !o.save && !o.retry
                && o.lines.deep_view() == listing(todos.deep_view())),
            self matches Command::Add(a) ==> (r matches Ok(o) && o.save && !o.retry
                && o.lines@.len() == 0 && (match a.short_desc {
                Some(s) => add_post(todos.deep_view(), o.todos.deep_view(), s@, None),
                None => interaction matches Interaction::AddPrompts { short_desc, long_desc }
                    && add_post(
                    todos.deep_view(),
                    o.todos.deep_view(),
                    short_desc@,
                    long_desc.deep_view(),
                ),
            })),
            self is Edit ==> (interaction matches Interaction::Edit(req) && (match req {
                EditRequest::Quick { selected_ids } => r matches Ok(o) && o.save && !o.retry
                    && o.lines@.len() == 0 && quick_edit_post(
                    todos.deep_view(),
                    o.todos.deep_view(),
                    selected_ids@,
                ),
                EditRequest::Full { id, short_desc, long_desc, completed } => {
                    if contains_id(todos.deep_view(), id) {
                        r matches Ok(o) && o.save && !o.retry && o.lines@.len() == 0
                            && full_edit_post(
                            todos.deep_view(),
                            o.todos.deep_view(),
                            id,
                            short_desc@,
                            long_desc.deep_view(),
                            completed,
                        )
                    } else {
                        r == Err::<CommandOutcome, StoreError>(StoreError::SelectionNotFound)
                    }
                },
            })),
            self is Remove ==> (interaction matches Interaction::Remove(req) && r matches Ok(o)
                && o.lines@.len() == 0 && (match req {
                RemoveRequest::All { confirmed } => {
                    &&& !o.retry
                    &&& o.save == confirmed
                    &&& confirmed ==> o.todos@.len() == 0
                    &&& !confirmed ==> o.todos@ == todos@
                },
                RemoveRequest::Selected { selected_ids, confirmed } => {
                    &&& selected_ids@.len() == 0 ==> !o.save && !o.retry && o.todos@ == todos@
                    &&& selected_ids@.len() > 0 && confirmed ==> o.save && !o.retry
                        && o.todos.deep_view() == removed(todos.deep_view(), selected_ids@)
                    &&& selected_ids@.len() > 0 && !confirmed ==> !o.save && o.retry && o.todos@
                        == todos@
                },
            })),
    {
        match self {
            Command::Add(args) => {
                let mut next = todos;
                match args.short_desc {
                    Some(s) => store::handle_add(&mut next, s, None),
                    None => match interaction {
                        Interaction::AddPrompts { short_desc, long_desc } => {
                            store::handle_add(&mut next, short_desc, long_desc)
                        },
                        _ => {
                            proof {
                                assert(false);
                            }
                            vstd::pervasive::unreached()
                        },
                    },
                }
                Ok(CommandOutcome { todos: next, save: true, retry: false, lines: Vec::new() })
            },
            Command::Edit(_) => {
                let req = match interaction {
                    Interaction::Edit(req) => req,
                    _ => {
                        proof {
                            assert(false);
                        }
                        vstd::pervasive::unreached()
                    },
                };
                let mut next = todos;
                match store::handle_edit(&mut next, req) {
                    Ok(()) => Ok(
                        CommandOutcome { todos: next, save: true, retry: false, lines: Vec::new() },
                    ),
                    Err(e) => Err(e),
                }
            },
            Command::Remove(_) => {
                let req = match interaction {
                    Interaction::Remove(req) => req,
                    _ => {
                        proof {
                            assert(false);
                        }
                        vstd::pervasive::unreached()
                    },
                };
                let mut next = todos;
                let outcome = store::handle_remove(&mut next, req);
                Ok(
                    CommandOutcome {
                        todos: next,
                        save: outcome.save,
                        retry: outcome.retry,
                        lines: Vec::new(),
                    },
                )
            },
            Command::List => {
                let lines = store::handle_list(&todos);
                Ok(CommandOutcome { todos, save: false, retry: false, lines })
            },
        }
    }
}

} // verus!
