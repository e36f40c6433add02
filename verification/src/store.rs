//! The mutation operations of the store: add, quick edit, full edit,
//! remove one-by-one or all, and the read-only listing.  Every operation is
//! a pure function of the current collection and already-resolved values;
//! selection, confirmation and persistence decisions are stated exactly.

use vstd::prelude::*;

use crate::sys;
use crate::task::{rendered_line, TaskView, Timestamp, TodoItem};

verus! {

/// An internal defect: a selected identifier could not be found again.
#[derive(Debug, PartialEq, Eq, Structural)]
pub enum StoreError {
    SelectionNotFound,
}

/// Whether some task of `s` carries `id`.
pub open spec fn contains_id(s: Seq<TaskView>, id: u128) -> bool {
    exists|i: int| 0 <= i < s.len() && s[i].id == id
}

/// No two tasks of `s` share an identifier.
pub open spec fn unique_ids(s: Seq<TaskView>) -> bool {
    forall|i: int, j: int| 0 <= i < j < s.len() ==> s[i].id != s[j].id
}

/// Every task's creation timestamp is in the renderable range.
pub open spec fn wf_tasks(s: Seq<TaskView>) -> bool {
    forall|i: int| 0 <= i < s.len() ==> (#[trigger] s[i]).created_at.wf()
}

/// `i` is the position of the first task of `s` that carries `id`.
pub open spec fn is_first_index_of_id(s: Seq<TaskView>, id: u128, i: int) -> bool {
    &&& 0 <= i < s.len()
    &&& s[i].id == id
    &&& forall|j: int| 0 <= j < i ==> s[j].id != id
}

/// Whether `todos` holds a task with identifier `id`.
pub fn collection_contains_id(todos: &Vec<TodoItem>, id: u128) -> (r: bool)
    ensures
        r == contains_id(todos.deep_view(), id),
{
    let ghost s = todos.deep_view();
    let mut k: usize = 0;
    while k < todos.len()
        invariant
            0 <= k <= todos.len(),
            s == todos.deep_view(),
            s.len() == todos.len(),
            forall|j: int| 0 <= j < k ==> s[j].id != id,
        decreases todos.len() - k,
    {
        assert(s[k as int] == todos[k as int]@);
        if todos[k].id == id {
            return true;
        }
        k += 1;
    }
    false
}

/// Whether `ids` holds `id`.
fn ids_contain(ids: &Vec<u128>, id: u128) -> (r: bool)
    ensures
        r == ids@.contains(id),
{
    let mut k: usize = 0;
    while k < ids.len()
        invariant
            0 <= k <= ids.len(),
            forall|j: int| 0 <= j < k ==> ids@[j] != id,
        decreases ids.len() - k,
    {
        if ids[k] == id {
            return true;
        }
        k += 1;
    }
    false
}

/// Appends a brand-new task, provided its identifier is unused: the prior
/// tasks stay untouched, and the new record starts not completed.
pub fn add_task(
    todos: &mut Vec<TodoItem>,
    id: u128,
    short_desc: String,
    long_desc: Option<String>,
    created_at: Timestamp,
) -> (r: bool)
    ensures
        r == !contains_id(old(todos).deep_view(), id),
        r ==> final(todos).deep_view() == old(todos).deep_view().push(
            TaskView {
                id,
                short_desc: short_desc@,
                long_desc: long_desc.deep_view(),
                completed: false,
                created_at,
            },
        ),
        !r ==> final(todos)@ == old(todos)@,
{
    if collection_contains_id(todos, id) {
        return false;
    }
    todos.push(
        TodoItem { id, short_desc, long_desc, completed: false, created_at },
    );
    assert(todos.deep_view() =~= old(todos).deep_view().push(todos@.last()@));
    true
}

/// In a collection of fewer tasks than there are identifier values, some
/// identifier no larger than the collection's length is unused.
proof fn lemma_free_id(s: Seq<TaskView>)
    requires
        s.len() < u128::MAX,
    ensures
        exists|c: u128| c <= s.len() && !contains_id(s, c),
{
    let ids = s.map_values(|t: TaskView| t.id as int);
    vstd::assert_by_contradiction!(exists|c: u128| c <= s.len() && !contains_id(s, c), {
        let range = vstd::set_lib::set_int_range(0, s.len() as int + 1);
        vstd::set_lib::lemma_int_range(0, s.len() as int + 1);
        ids.lemma_cardinality_of_set();
        broadcast use vstd::seq_lib::seq_to_set_is_finite;
        assert forall|x: int| range.contains(x) implies ids.to_set().contains(x) by {
            let c = x as u128;
            assert(c <= s.len() && contains_id(s, c));
            let i = choose|i: int| 0 <= i < s.len() && s[i].id == c;
            assert(ids[i] == x);
            assert(ids.to_set().contains(ids[i]));
        }
        vstd::set_lib::lemma_len_subset(range, ids.to_set());
    });
}

/// An identifier that no task of `todos` carries: the freshly drawn random
/// one when it is free (in practice it always is), else the smallest free value.
pub fn unused_id(todos: &Vec<TodoItem>) -> (r: u128)
    ensures
        !contains_id(todos.deep_view(), r),
{
    let id = sys::fresh_id();
    if !collection_contains_id(todos, id) {
        return id;
    }
    let ghost s = todos.deep_view();
    let n = todos.len();
    proof {
        assert(s.len() == n as int);
        lemma_free_id(s);
    }
    let ghost cf = choose|c: u128| c <= s.len() && !contains_id(s, c);
    let mut c: u128 = 0;
    let mut taken = collection_contains_id(todos, c);
    while taken
        invariant
            s == todos.deep_view(),
            taken == contains_id(s, c),
            c <= cf <= s.len(),
            !contains_id(s, cf),
        decreases cf - c,
    {
        assert(c < cf);
        c = c + 1;
        taken = collection_contains_id(todos, c);
    }
    c
}

/// What an add leaves behind: one appended task with a previously unused
/// identifier, a well-formed creation instant, the given descriptions and
/// `completed = false`; every prior task is carried over unchanged.
pub open spec fn add_post(
    pre: Seq<TaskView>,
    post: Seq<TaskView>,
    short_desc: Seq<char>,
    long_desc: Option<Seq<char>>,
) -> bool {
    exists|id: u128, ts: Timestamp|
        !contains_id(pre, id) && ts.wf() && post == pre.push(
            TaskView { id, short_desc, long_desc, completed: false, created_at: ts },
        )
}

/// The add operation: a fresh unused identifier, the creation instant taken
/// now, the given descriptions, and `completed = false`; everything already
/// in the collection is carried over unchanged.
pub fn handle_add(todos: &mut Vec<TodoItem>, short_desc: String, long_desc: Option<String>)
    ensures
        add_post(
            old(todos).deep_view(),
            final(todos).deep_view(),
            short_desc@,
            long_desc.deep_view(),
        ),
{
    let id = unused_id(todos);
    let ts = Timestamp::now();
    let added = add_task(todos, id, short_desc, long_desc, ts);
    assert(added);
}

/// What a quick edit leaves behind: the same tasks in the same order, every
/// field kept, except that a task is completed exactly when it was selected.
pub open spec fn quick_edit_post(pre: Seq<TaskView>, post: Seq<TaskView>, sel: Seq<u128>) -> bool {
    &&& post.len() == pre.len()
    &&& forall|i: int|
        0 <= i < pre.len() ==> (#[trigger] post[i]) == (TaskView {
            completed: sel.contains(pre[i].id),
            ..pre[i]
        })
}

/// Quick edit: re-derive every completion flag from the final selection.
/// A task becomes completed exactly when its identifier was selected;
/// nothing else changes.
pub fn quick_edit(todos: &mut Vec<TodoItem>, selected_ids: &Vec<u128>)
    ensures
        quick_edit_post(old(todos).deep_view(), final(todos).deep_view(), selected_ids@),
{
    let n = todos.len();
    let mut k: usize = 0;
    while k < n
        invariant
            0 <= k <= n,
            n == todos.len(),
            todos.deep_view().len() == old(todos).deep_view().len(),
            forall|j: int|
                k <= j < n ==> (#[trigger] todos.deep_view()[j]) == old(todos).deep_view()[j],
            forall|j: int|
                0 <= j < k ==> (#[trigger] todos.deep_view()[j]) == (TaskView {
                    completed: selected_ids@.contains(old(todos).deep_view()[j].id),
                    ..old(todos).deep_view()[j]
                }),
        decreases n - k,
    {
        let ghost prevv = todos@;
        let ghost prev = todos.deep_view();
        let sel = ids_contain(selected_ids, todos[k].id);
        todos[k].completed = sel;
        proof {
            assert forall|j: int|
                0 <= j < prev.len() && j != k as int implies #[trigger] todos.deep_view()[j]
                    == prev[j] by {
                assert(todos@[j] == prevv[j]);
            }
            assert(todos.deep_view()[k as int] == (TaskView { completed: sel, ..prev[k as int] }));
            assert(prev[k as int] == old(todos).deep_view()[k as int]);
        }
        k += 1;
    }
}

/// What a full edit leaves behind: the first task carrying `id` is replaced
/// by a record with the same `id` and `created_at` and the freshly supplied
/// other fields; every other task is untouched.
pub open spec fn full_edit_post(
    pre: Seq<TaskView>,
    post: Seq<TaskView>,
    id: u128,
    short_desc: Seq<char>,
    long_desc: Option<Seq<char>>,
    completed: bool,
) -> bool {
    exists|i: int|
        is_first_index_of_id(pre, id, i) && post == pre.update(
            i,
            TaskView { id, short_desc, long_desc, completed, created_at: pre[i].created_at },
        )
}

/// Full edit: the task carrying `id` is replaced by a record with the same
/// `id` and `created_at` and the freshly supplied other fields; locating it
/// goes by identifier, never by position.
pub fn full_edit(
    todos: &mut Vec<TodoItem>,
    id: u128,
    short_desc: String,
    long_desc: Option<String>,
    completed: bool,
) -> (r: Result<(), StoreError>)
    ensures
        r is Ok <==> contains_id(old(todos).deep_view(), id),
        r is Ok ==> full_edit_post(
            old(todos).deep_view(),
            final(todos).deep_view(),
            id,
            short_desc@,
            long_desc.deep_view(),
            completed,
        ),
        r is Err ==> final(todos)@ == old(todos)@ && r == Err::<(), StoreError>(
            StoreError::SelectionNotFound,
        ),
{
    let ghost pre = todos.deep_view();
    let mut k: usize = 0;
    while k < todos.len()
        invariant
            0 <= k <= todos.len(),
            todos@ == old(todos)@,
            todos.deep_view() == pre,
            todos.deep_view().len() == todos@.len(),
            forall|j: int| 0 <= j < k ==> pre[j].id != id,
        decreases todos.len() - k,
    {
        if todos[k].id == id {
            let created_at = todos[k].created_at;
            let replacement = TodoItem { id, short_desc, long_desc, completed, created_at };
            let ghost rv = replacement@;
            todos[k] = replacement;
            proof {
                assert(is_first_index_of_id(pre, id, k as int));
                assert(contains_id(pre, id));
                assert(todos.deep_view() =~= pre.update(k as int, rv));
                assert(rv == (TaskView {
                    id,
                    short_desc: short_desc@,
                    long_desc: long_desc.deep_view(),
                    completed,
                    created_at: pre[k as int].created_at,
                }));
                assert(todos.deep_view() == pre.update(
                    k as int,
                    TaskView {
                        id,
                        short_desc: short_desc@,
                        long_desc: long_desc.deep_view(),
                        completed,
                        created_at: pre[k as int].created_at,
                    },
                ));
            }
            return Ok(());
        }
        k += 1;
    }
    Err(StoreError::SelectionNotFound)
}

/// What remains of `s` once the tasks whose identifiers are in `sel` are
/// deleted: the kept tasks in their existing order.
pub open spec fn removed(s: Seq<TaskView>, sel: Seq<u128>) -> Seq<TaskView>
    decreases s.len(),
{
    if s.len() == 0 {
        Seq::empty()
    } else {
        removed(s.drop_last(), sel) + if sel.contains(s.last().id) {
            Seq::empty()
        } else {
            seq![s.last()]
        }
    }
}

/// Remove the tasks whose identifiers were selected; every other task is
/// preserved, in its existing order.
pub fn remove_selected(todos: &Vec<TodoItem>, selected_ids: &Vec<u128>) -> (r: Vec<TodoItem>)
    ensures
        r.deep_view() == removed(todos.deep_view(), selected_ids@),
{
    let ghost s = todos.deep_view();
    let mut out: Vec<TodoItem> = Vec::new();
    let mut k: usize = 0;
    while k < todos.len()
        invariant
            0 <= k <= todos.len(),
            s == todos.deep_view(),
            s.len() == todos.len(),
            out.deep_view() == removed(s.take(k as int), selected_ids@),
        decreases todos.len() - k,
    {
        let keep = !ids_contain(selected_ids, todos[k].id);
        assert(s.take(k as int + 1).drop_last() =~= s.take(k as int));
        assert(s.take(k as int + 1).last() == s[k as int]);
        if keep {
            out.push(todos[k].duplicate());
        }
        assert(out.deep_view() =~= removed(s.take(k as int + 1), selected_ids@));
        k += 1;
    }
    assert(s.take(todos.len() as int) =~= s);
    out
}

/// Remove all: clears the collection only when the user confirmed.
pub fn remove_all(todos: &mut Vec<TodoItem>, confirmed: bool)
    ensures
        confirmed ==> final(todos)@.len() == 0,
        !confirmed ==> final(todos)@ == old(todos)@,
{
    if confirmed {
        todos.clear();
    }
}

/// What one round of the remove-selected flow decides.
#[derive(Debug, PartialEq, Eq, Structural, Clone, Copy)]
pub enum RemoveDecision {
    /// An empty selection: leave the whole operation with no changes.
    Exit,
    /// A non-empty, confirmed selection: delete it.
    Commit,
    /// A non-empty selection whose confirmation was declined: select again.
    Retry,
}

/// One round of the remove-selected loop: an empty selection exits as a
/// no-op without asking; a confirmed non-empty selection is committed; a
/// declined one sends the user back to the selection prompt.
pub fn remove_round_decision(selection_len: usize, confirmed: bool) -> (r: RemoveDecision)
    ensures
        selection_len == 0 ==> r == RemoveDecision::Exit,
        selection_len > 0 && confirmed ==> r == RemoveDecision::Commit,
        selection_len > 0 && !confirmed ==> r == RemoveDecision::Retry,
{
    if selection_len == 0 {
        RemoveDecision::Exit
    } else if confirmed {
        RemoveDecision::Commit
    } else {
        RemoveDecision::Retry
    }
}

/// The edit operation, with its already-resolved values.
#[derive(Debug)]
pub enum EditRequest {
    /// The final multi-selection of the tasks to mark completed.
    Quick { selected_ids: Vec<u128> },
    /// The chosen task and the freshly supplied fields.
    Full { id: u128, short_desc: String, long_desc: Option<String>, completed: bool },
}

/// The remove operation, with its already-resolved values.
#[derive(Debug)]
pub enum RemoveRequest {
    /// Remove everything, if and only if the user confirmed.
    All { confirmed: bool },
    /// The outcome of the last selection round.
    Selected { selected_ids: Vec<u128>, confirmed: bool },
}

/// The edit operation: quick edits re-derive every completion flag; full
/// edits replace one record, keeping its identity and creation time.
pub fn handle_edit(todos: &mut Vec<TodoItem>, request: EditRequest) -> (r: Result<(), StoreError>)
    ensures
        request matches EditRequest::Quick { selected_ids } ==> r is Ok && quick_edit_post(
            old(todos).deep_view(),
            final(todos).deep_view(),
            selected_ids@,
        ),
        request matches EditRequest::Full { id, short_desc, long_desc, completed } ==> {
            &&& r is Ok <==> contains_id(old(todos).deep_view(), id)
            &&& r is Ok ==> full_edit_post(
                old(todos).deep_view(),
                final(todos).deep_view(),
                id,
                short_desc@,
                long_desc.deep_view(),
                completed,
            )
            &&& r is Err ==> final(todos)@ == old(todos)@ && r == Err::<(), StoreError>(
                StoreError::SelectionNotFound,
            )
        },
{
    match request {
        EditRequest::Quick { selected_ids } => {
            quick_edit(todos, &selected_ids);
            Ok(())
        },
        EditRequest::Full { id, short_desc, long_desc, completed } => {
            full_edit(todos, id, short_desc, long_desc, completed)
        },
    }
}

/// What the remove operation reports back: whether the collection changed
/// (and is to be persisted) and whether the selection round is to be rerun.
#[derive(Debug, PartialEq, Eq, Structural, Clone, Copy)]
pub struct RemoveOutcome {
    pub save: bool,
    pub retry: bool,
}

/// The remove operation.  Remove-all clears only on confirmation; a
/// remove-selected round follows `remove_round_decision`.  The collection is
/// to be persisted only when a deletion actually occurred.
pub fn handle_remove(todos: &mut Vec<TodoItem>, request: RemoveRequest) -> (r: RemoveOutcome)
    ensures
        request matches RemoveRequest::All { confirmed } ==> {
            &&& r.retry == false
            &&& r.save == confirmed
            &&& confirmed ==> final(todos)@.len() == 0
            &&& !confirmed ==> final(todos)@ == old(todos)@
        },
        request matches RemoveRequest::Selected { selected_ids, confirmed } ==> {
            &&& selected_ids@.len() == 0 ==> r == (RemoveOutcome { save: false, retry: false })
                && final(todos)@ == old(todos)@
            &&& selected_ids@.len() > 0 && confirmed ==> r == (RemoveOutcome {
                save: true,
                retry: false,
            }) && final(todos).deep_view() == removed(old(todos).deep_view(), selected_ids@)
            &&& selected_ids@.len() > 0 && !confirmed ==> r == (RemoveOutcome {
                save: false,
                retry: true,
            }) && final(todos)@ == old(todos)@
        },
{
    match request {
        RemoveRequest::All { confirmed } => {
            remove_all(todos, confirmed);
            RemoveOutcome { save: confirmed, retry: false }
        },
        RemoveRequest::Selected { selected_ids, confirmed } => {
            match remove_round_decision(selected_ids.len(), confirmed) {
                RemoveDecision::Exit => RemoveOutcome { save: false, retry: false },
                RemoveDecision::Retry => RemoveOutcome { save: false, retry: true },
                RemoveDecision::Commit => {
                    let next = remove_selected(todos, &selected_ids);
                    *todos = next;
                    RemoveOutcome { save: true, retry: false }
                },
            }
        },
    }
}

/// One edit, by its mathematical effect.
pub ghost enum EditView {
    Quick { selected: Seq<u128> },
    Full { id: u128, short_desc: Seq<char>, long_desc: Option<Seq<char>>, completed: bool },
}

/// The identity of every task of `s`, in order: identifier and creation time.
pub open spec fn identity_of(s: Seq<TaskView>) -> Seq<(u128, Timestamp)> {
    s.map_values(|t: TaskView| (t.id, t.created_at))
}

/// `post` is what one edit `e` makes of `pre`.
pub open spec fn edit_step(pre: Seq<TaskView>, post: Seq<TaskView>, e: EditView) -> bool {
    match e {
        EditView::Quick { selected } => quick_edit_post(pre, post, selected),
        EditView::Full { id, short_desc, long_desc, completed } => contains_id(pre, id)
            && full_edit_post(pre, post, id, short_desc, long_desc, completed),
    }
}

/// `states` is the run of collections that applying `edits` in order produces.
pub open spec fn edit_chain(states: Seq<Seq<TaskView>>, edits: Seq<EditView>) -> bool {
    &&& states.len() == edits.len() + 1
    &&& forall|k: int| 0 <= k < edits.len() ==> edit_step(states[k], states[k + 1], edits[k])
}

/// One edit, quick or full, keeps every task's identifier and creation time
/// (and its position in the collection).
pub proof fn lemma_edit_step_identity(pre: Seq<TaskView>, post: Seq<TaskView>, e: EditView)
    requires
        edit_step(pre, post, e),
    ensures
        identity_of(post) == identity_of(pre),
{
    match e {
        EditView::Quick { selected } => {
            assert(identity_of(post) =~= identity_of(pre));
        },
        EditView::Full { id, short_desc, long_desc, completed } => {
            let i = choose|i: int|
                is_first_index_of_id(pre, id, i) && post == pre.update(
                    i,
                    TaskView {
                        id,
                        short_desc,
                        long_desc,
                        completed,
                        created_at: pre[i].created_at,
                    },
                );
            assert(post[i].id == pre[i].id);
            assert(identity_of(post) =~= identity_of(pre));
        },
    }
}

/// Identity stability: across any sequence of edits, quick or full, every
/// task keeps its identifier and creation time.
pub proof fn lemma_identity_stable(states: Seq<Seq<TaskView>>, edits: Seq<EditView>)
    requires
        edit_chain(states, edits),
    ensures
        forall|k: int|
            0 <= k < states.len() ==> identity_of(#[trigger] states[k]) == identity_of(states[0]),
    decreases edits.len(),
{
    if edits.len() > 0 {
        let n = edits.len() as int;
        let states2 = states.drop_last();
        let edits2 = edits.drop_last();
        assert forall|k: int| 0 <= k < edits2.len() implies edit_step(
            states2[k],
            states2[k + 1],
            edits2[k],
        ) by {
            assert(edit_step(states[k], states[k + 1], edits[k]));
        }
        lemma_identity_stable(states2, edits2);
        assert(edit_step(states[n - 1], states[n], edits[n - 1]));
        lemma_edit_step_identity(states[n - 1], states[n], edits[n - 1]);
        assert forall|k: int| 0 <= k < states.len() implies identity_of(#[trigger] states[k])
            == identity_of(states[0]) by {
            if k < n {
                assert(states2[k] == states[k]);
                assert(states2[0] == states[0]);
            } else {
                assert(states2[n - 1] == states[n - 1]);
                assert(states2[0] == states[0]);
            }
        }
    }
}

/// An add keeps identifiers unique: the new record's identifier was unused.
pub proof fn lemma_add_keeps_unique(
    pre: Seq<TaskView>,
    post: Seq<TaskView>,
    short_desc: Seq<char>,
    long_desc: Option<Seq<char>>,
)
    requires
        unique_ids(pre),
        add_post(pre, post, short_desc, long_desc),
    ensures
        unique_ids(post),
{
    let (id, ts) = choose|id: u128, ts: Timestamp|
        !contains_id(pre, id) && ts.wf() && post == pre.push(
            TaskView { id, short_desc, long_desc, completed: false, created_at: ts },
        );
    assert forall|i: int, j: int| 0 <= i < j < post.len() implies post[i].id != post[j].id by {
        if j < pre.len() {
        } else {
            assert(post[i] == pre[i]);
            assert(!contains_id(pre, id));
            assert(pre[i].id != id);
        }
    }
}

/// An edit, quick or full, keeps identifiers unique: no identifier changes.
pub proof fn lemma_edit_keeps_unique(pre: Seq<TaskView>, post: Seq<TaskView>, e: EditView)
    requires
        unique_ids(pre),
        edit_step(pre, post, e),
    ensures
        unique_ids(post),
{
    lemma_edit_step_identity(pre, post, e);
    assert forall|i: int, j: int| 0 <= i < j < post.len() implies post[i].id != post[j].id by {
        assert(identity_of(post)[i] == identity_of(pre)[i]);
        assert(identity_of(post)[j] == identity_of(pre)[j]);
    }
}

/// A remove keeps identifiers unique: what stays is a subsequence, and every
/// surviving identifier already stood in the collection.
pub proof fn lemma_remove_keeps_unique(s: Seq<TaskView>, sel: Seq<u128>)
    requires
        unique_ids(s),
    ensures
        unique_ids(removed(s, sel)),
        forall|id: u128| contains_id(removed(s, sel), id) ==> contains_id(s, id),
    decreases s.len(),
{
    if s.len() == 0 {
    } else {
        let front = s.drop_last();
        let r0 = removed(front, sel);
        assert(unique_ids(front));
        lemma_remove_keeps_unique(front, sel);
        assert forall|id: u128| contains_id(removed(s, sel), id) implies contains_id(s, id) by {
            let r = removed(s, sel);
            let tail: Seq<TaskView> = if sel.contains(s.last().id) {
                Seq::empty()
            } else {
                seq![s.last()]
            };
            assert(r == r0 + tail);
            let i = choose|i: int| 0 <= i < r.len() && r[i].id == id;
            if i < r0.len() {
                assert(r[i] == (r0 + tail)[i]);
                assert(r0[i].id == id);
                assert(contains_id(r0, id));
                assert(contains_id(removed(front, sel), id));
                assert(contains_id(front, id));
                let j = choose|j: int| 0 <= j < front.len() && front[j].id == id;
                assert(front[j] == s.subrange(0, s.len() as int - 1)[j]);
                assert(s[j].id == id);
            } else {
                assert(r[i] == tail[i - r0.len()]);
                assert(r[i] == s.last());
                assert(s[s.len() - 1].id == id);
            }
        }
        if !sel.contains(s.last().id) {
            assert forall|i: int, j: int|
                0 <= i < j < removed(s, sel).len() implies removed(s, sel)[i].id != removed(
                s,
                sel,
            )[j].id by {
                let r = removed(s, sel);
                if j < r0.len() {
                    assert(r[i] == r0[i] && r[j] == r0[j]);
                } else {
                    assert(r[i] == r0[i] && r[j] == s.last());
                    if r0[i].id == s.last().id {
                        assert(contains_id(r0, r0[i].id));
                        assert(contains_id(front, r0[i].id));
                        let m = choose|m: int| 0 <= m < front.len() && front[m].id == r0[i].id;
                        assert(s[m].id == s[s.len() - 1].id);
                        assert(false);
                    }
                }
            }
        }
    }
}

/// The single line shown when there is nothing to list.
pub open spec fn no_todos_line() -> Seq<char> {
    "No todos found."@
}

/// The display projection of a collection: one rendered line per task, or
/// the single no-todos indicator when the collection is empty.
pub open spec fn listing(s: Seq<TaskView>) -> Seq<Seq<char>> {
    if s.len() == 0 {
        seq![no_todos_line()]
    } else {
        s.map_values(|t: TaskView| rendered_line(t))
    }
}

/// The list operation: read-only; renders every task, or the single
/// no-todos indicator for an empty collection.
pub fn handle_list(todos: &Vec<TodoItem>) -> (r: Vec<String>)
    requires
        wf_tasks(todos.deep_view()),
    ensures
        r.deep_view() == listing(todos.deep_view()),
{
    let ghost s = todos.deep_view();
    if todos.len() == 0 {
        let mut out: Vec<String> = Vec::new();
        out.push(String::from_str("No todos found."));
        assert(out.deep_view() =~= listing(s));
        return out;
    }
    let mut out: Vec<String> = Vec::new();
    let mut k: usize = 0;
    while k < todos.len()
        invariant
            0 <= k <= todos.len(),
            s == todos.deep_view(),
            s.len() == todos.len(),
            wf_tasks(s),
            out.deep_view().len() == k,
            forall|j: int| 0 <= j < k ==> out.deep_view()[j] == rendered_line(s[j]),
        decreases todos.len() - k,
    {
        assert(s[k as int].created_at.wf());
        let ghost pre_out = out.deep_view();
        let line = todos[k].display_line();
        out.push(line);
        assert(out.deep_view() =~= pre_out.push(line@));
        k += 1;
    }
    assert(out.deep_view() =~= listing(s));
    out
}

} // verus!
