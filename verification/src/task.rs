//! The task entity: a record with a stable identifier, two descriptions, a
//! completion flag and an immutable creation timestamp.

use vstd::prelude::*;

use crate::sys;

verus! {

/// Latest second that the date formatter is promised to accept
/// (the last second of the year 9999).
pub const MAX_RENDERABLE_SECS: i64 = 253_402_300_799;

/// A creation instant: seconds since the Unix epoch, the sub-second
/// nanoseconds, and the local UTC offset captured when the task was made.
#[derive(Clone, Copy, PartialEq, Eq, Structural, Debug)]
pub struct Timestamp {
    pub secs: i64,
    pub nanos: u32,
    pub offset_secs: i32,
}

impl Timestamp {
    /// The ranges under which a timestamp can always be rendered as a date.
    pub open spec fn wf(self) -> bool {
        &&& 0 <= self.secs <= MAX_RENDERABLE_SECS
        &&& self.nanos < 2_000_000_000
        &&& -86_400 < self.offset_secs < 86_400
    }

    /// The current instant, clamped into the renderable range.
    pub fn now() -> (r: Timestamp)
        ensures
            r.wf(),
    {
        let (secs, nanos, offset_secs) = sys::now_parts();
        let secs: i64 = if secs < 0 {
            0
        } else if secs > MAX_RENDERABLE_SECS {
            MAX_RENDERABLE_SECS
        } else {
            secs
        };
        Timestamp { secs, nanos, offset_secs }
    }

    /// The date rendering of a well-formed timestamp.
    pub open spec fn rendered(self) -> Seq<char> {
        sys::formatted_of(self.secs as int, self.nanos as int, self.offset_secs as int)
    }
}

/// The mathematical image of one task.
pub ghost struct TaskView {
    pub id: u128,
    pub short_desc: Seq<char>,
    pub long_desc: Option<Seq<char>>,
    pub completed: bool,
    pub created_at: Timestamp,
}

/// One todo record.  Its identity is `id` alone: every edit keeps `id` and
/// `created_at` and may replace the rest.
#[derive(Debug)]
pub struct TodoItem {
    pub id: u128,
    pub short_desc: String,
    pub long_desc: Option<String>,
    pub completed: bool,
    pub created_at: Timestamp,
}

impl View for TodoItem {
    type V = TaskView;

    open spec fn view(&self) -> TaskView {
        TaskView {
            id: self.id,
            short_desc: self.short_desc@,
            long_desc: self.long_desc.deep_view(),
            completed: self.completed,
            created_at: self.created_at,
        }
    }
}

impl DeepView for TodoItem {
    type V = TaskView;

    open spec fn deep_view(&self) -> TaskView {
        self.view()
    }
}

impl PartialEq for TodoItem {
    /// Two tasks are the same task exactly when their identifiers agree.
    fn eq(&self, other: &Self) -> (r: bool) {
        self.id == other.id
    }
}

impl vstd::std_specs::cmp::PartialEqSpecImpl for TodoItem {
    open spec fn obeys_eq_spec() -> bool {
        true
    }

    open spec fn eq_spec(&self, other: &Self) -> bool {
        self.id == other.id
    }
}

impl TodoItem {
    /// A field-for-field copy.
    pub fn duplicate(&self) -> (r: TodoItem)
        ensures
            r@ == self@,
    {
        TodoItem {
            id: self.id,
            short_desc: self.short_desc.clone(),
            long_desc: match &self.long_desc {
                Some(s) => Some(s.clone()),
                None => None,
            },
            completed: self.completed,
            created_at: self.created_at,
        }
    }

    /// The creation date, rendered; empty only for a timestamp out of the
    /// renderable range, which no constructor of this library produces.
    pub fn get_formatted_date(&self) -> (r: String)
        ensures
            self.created_at.wf() ==> r@ == self.created_at.rendered(),
    {
        match sys::format_parts(
            self.created_at.secs,
            self.created_at.nanos,
            self.created_at.offset_secs,
        ) {
            Some(s) => s,
            None => String::new(),
        }
    }
}

impl Default for TodoItem {
    /// A blank record: a fresh identifier, the instant of creation, nothing
    /// else filled in, not completed.
    fn default() -> (r: TodoItem)
        ensures
            r.short_desc@ == Seq::<char>::empty(),
            r.long_desc is None,
            !r.completed,
            r.created_at.wf(),
    {
        TodoItem {
            id: sys::fresh_id(),
            short_desc: String::new(),
            long_desc: None,
            completed: false,
            created_at: Timestamp::now(),
        }
    }
}

/// The joined form of chosen descriptions: each separated from the next by
/// a comma and a space.
pub open spec fn summary_view(ds: Seq<Seq<char>>) -> Seq<char>
    decreases ds.len(),
{
    if ds.len() == 0 {
        Seq::empty()
    } else if ds.len() == 1 {
        ds[0]
    } else {
        summary_view(ds.drop_last()) + ", "@ + ds.last()
    }
}

impl TodoItem {
    /// What a multi-selection shows once it is made: the chosen short
    /// descriptions, joined by a comma and a space.
    pub fn multi_select_summary(descs: &Vec<String>) -> (r: String)
        ensures
            r@ == summary_view(descs.deep_view()),
    {
        let ghost dv = descs.deep_view();
        let mut out = String::new();
        let mut k: usize = 0;
        while k < descs.len()
            invariant
                0 <= k <= descs.len(),
                dv == descs.deep_view(),
                dv.len() == descs.len(),
                out@ == summary_view(dv.take(k as int)),
            decreases descs.len() - k,
        {
            if k > 0 {
                out.append(", ");
            }
            out.append(descs[k].as_str());
            proof {
                assert(dv.take(k as int + 1).drop_last() =~= dv.take(k as int));
                assert(dv.take(k as int + 1).last() == dv[k as int]);
                assert(out@ == summary_view(dv.take(k as int + 1)));
            }
            k += 1;
        }
        assert(dv.take(dv.len() as int) =~= dv);
        out
    }
}

/// How one task appears in a listing: a two-state completion marker, the
/// short description, and the creation date in parentheses.
pub open spec fn rendered_line(t: TaskView) -> Seq<char> {
    (if t.completed {
        "[x] "@
    } else {
        "[ ] "@
    }) + t.short_desc + " ("@ + t.created_at.rendered() + ")"@
}

impl TodoItem {
    /// The rendered listing line of one record.
    pub fn display_line(&self) -> (r: String)
        requires
            self.created_at.wf(),
        ensures
            r@ == rendered_line(self@),
    {
        let mut out = if self.completed {
            String::from_str("[x] ")
        } else {
            String::from_str("[ ] ")
        };
        out.append(self.short_desc.as_str());
        out.append(" (");
        let date = self.get_formatted_date();
        out.append(date.as_str());
        out.append(")");
        out
    }
}

} // verus!
