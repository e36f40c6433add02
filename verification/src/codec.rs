//! The on-disk text form of the collection and its parser.  A collection is
//! written as `[` followed by one parenthesised record per task, each with a
//! trailing comma, then `]`; strings are quoted with `\\`-escapes, numbers
//! are decimal.  Saving and loading are verified against the spec-level
//! serializer, and a round trip is proved to give the collection back.

use vstd::prelude::*;

use crate::store::wf_tasks;
use crate::task::{TaskView, Timestamp, TodoItem};

verus! {

/// The store file's name in the working directory.
pub const TODO_FILE_NAME: &'static str = ".todos.txt";

/// Loading or saving failed on the file's content.
#[derive(Debug, PartialEq, Eq, Structural)]
pub enum PersistenceError {
    /// The file's text is not a serialized collection.
    Malformed,
}

/// Relies on `str::chars` and `Iterator::collect`: the characters of the
/// string, in order.
#[verifier::external_body]
fn chars_of(s: &str) -> (r: Vec<char>)
    ensures
        r@ == s@,
{
    s.chars().collect()
}

/// Relies on `String::from_iter` over `Vec::into_iter`: the string holding
/// exactly the given characters, in order.
#[verifier::external_body]
fn string_of(chars: Vec<char>) -> (r: String)
    ensures
        r@ == chars@,
{
    chars.into_iter().collect()
}

// ---------------------------------------------------------------------------
// The serialized form, at the spec level.
// ---------------------------------------------------------------------------
/// The decimal digits.
pub open spec fn is_digit(c: char) -> bool {
    48 <= c as u32 <= 57
}

/// The digit character for one value below ten.
pub open spec fn digit_char(d: int) -> char {
    ((48 + d) as u8) as char
}

/// The value of one digit character.
pub open spec fn digit_val(c: char) -> int {
    c as u32 - 48
}

/// The decimal rendering of a natural number, most significant digit first.
pub open spec fn ser_nat(n: nat) -> Seq<char>
    decreases n,
{
    if n < 10 {
        seq![digit_char(n as int)]
    } else {
        ser_nat(n / 10).push(digit_char((n % 10) as int))
    }
}

/// The decimal rendering of an integer: a sign for negatives, then digits.
pub open spec fn ser_int(v: int) -> Seq<char> {
    if v < 0 {
        seq!['-'] + ser_nat((-v) as nat)
    } else {
        ser_nat(v as nat)
    }
}

/// One character of a quoted string: quote and backslash get a backslash.
pub open spec fn esc_char(c: char) -> Seq<char> {
    if c == '"' || c == '\\' {
        seq!['\\', c]
    } else {
        seq![c]
    }
}

/// The body of a quoted string (without the surrounding quotes).
pub open spec fn ser_str(s: Seq<char>) -> Seq<char>
    decreases s.len(),
{
    if s.len() == 0 {
        Seq::empty()
    } else {
        esc_char(s[0]) + ser_str(s.drop_first())
    }
}

/// An optional string: `None`, or `Some("...")`.
pub open spec fn ser_opt_str(o: Option<Seq<char>>) -> Seq<char> {
    match o {
        None => "None"@,
        Some(s) => "Some(\""@ + ser_str(s) + "\""@ + ")"@,
    }
}

/// A boolean: `true` or `false`.
pub open spec fn ser_bool(b: bool) -> Seq<char> {
    if b {
        "true"@
    } else {
        "false"@
    }
}

/// The timestamp triple of a record.
pub open spec fn ser_time(ct: Timestamp) -> Seq<char> {
    ser_int(ct.secs as int) + ","@ + ser_nat(ct.nanos as nat) + ","@ + ser_int(
        ct.offset_secs as int,
    )
}

/// One task record.
pub open spec fn ser_task(t: TaskView) -> Seq<char> {
    "(id:"@ + ser_nat(t.id as nat) + ",short_desc:\""@ + ser_str(t.short_desc) + "\""@
        + ",long_desc:"@ + ser_opt_str(t.long_desc) + ",completed:"@ + ser_bool(t.completed)
        + ",created_at:("@ + ser_time(t.created_at) + "))"@
}

/// The records of a collection, each followed by a comma.
pub open spec fn ser_tasks(ts: Seq<TaskView>) -> Seq<char>
    decreases ts.len(),
{
    if ts.len() == 0 {
        Seq::empty()
    } else {
        ser_task(ts[0]) + ","@ + ser_tasks(ts.drop_first())
    }
}

/// A whole collection: the bracketed records.
pub open spec fn ser_all(ts: Seq<TaskView>) -> Seq<char> {
    "["@ + ser_tasks(ts) + "]"@
}

// ---------------------------------------------------------------------------
// The parser, at the spec level.  Each function takes the text and a cursor
// and gives the parsed value with the cursor after it, or nothing.
// ---------------------------------------------------------------------------
/// Greedily consumes digits from `i`, folding them onto `acc`.
pub open spec fn sp_digits(s: Seq<char>, i: int, acc: int) -> (int, int)
    decreases s.len() - i,
{
    if 0 <= i < s.len() && is_digit(s[i]) {
        sp_digits(s, i + 1, acc * 10 + digit_val(s[i]))
    } else {
        (acc, i)
    }
}

/// A natural number: one or more digits.
pub open spec fn sp_nat(s: Seq<char>, i: int) -> Option<(int, int)> {
    if 0 <= i < s.len() && is_digit(s[i]) {
        Some(sp_digits(s, i, 0))
    } else {
        None
    }
}

/// An integer: an optional minus sign, then digits.
pub open spec fn sp_int(s: Seq<char>, i: int) -> Option<(int, int)> {
    if 0 <= i < s.len() && s[i] == '-' {
        match sp_nat(s, i + 1) {
            Some((v, e)) => Some((-v, e)),
            None => None,
        }
    } else {
        sp_nat(s, i)
    }
}

/// A quoted string's body, up to and over the closing quote.
pub open spec fn sp_str(s: Seq<char>, i: int) -> Option<(Seq<char>, int)>
    decreases s.len() - i,
{
    if !(0 <= i < s.len()) {
        None
    } else if s[i] == '"' {
        Some((Seq::empty(), i + 1))
    } else if s[i] == '\\' {
        if i + 1 < s.len() {
            match sp_str(s, i + 2) {
                Some((t, e)) => Some((seq![s[i + 1]] + t, e)),
                None => None,
            }
        } else {
            None
        }
    } else {
        match sp_str(s, i + 1) {
            Some((t, e)) => Some((seq![s[i]] + t, e)),
            None => None,
        }
    }
}

/// A fixed literal.
pub open spec fn sp_lit(s: Seq<char>, i: int, lit: Seq<char>) -> Option<int> {
    if 0 <= i && i + lit.len() <= s.len() && s.subrange(i, i + lit.len() as int) == lit {
        Some(i + lit.len() as int)
    } else {
        None
    }
}

/// `true` or `false`.
pub open spec fn sp_bool(s: Seq<char>, i: int) -> Option<(bool, int)> {
    match sp_lit(s, i, "true"@) {
        Some(e) => Some((true, e)),
        None => match sp_lit(s, i, "false"@) {
            Some(e) => Some((false, e)),
            None => None,
        },
    }
}

/// `None`, or `Some("...")`.
pub open spec fn sp_opt_str(s: Seq<char>, i: int) -> Option<(Option<Seq<char>>, int)> {
    match sp_lit(s, i, "None"@) {
        Some(e) => Some((None, e)),
        None => match sp_lit(s, i, "Some(\""@) {
            Some(e1) => match sp_str(s, e1) {
                Some((t, e2)) => match sp_lit(s, e2, ")"@) {
                    Some(e3) => Some((Some(t), e3)),
                    None => None,
                },
                None => None,
            },
            None => None,
        },
    }
}

/// One task record, with every field in range and the timestamp well-formed.
pub open spec fn sp_task(s: Seq<char>, i: int) -> Option<(TaskView, int)> {
    match sp_lit(s, i, "(id:"@) {
        Some(e1) => match sp_nat(s, e1) {
            Some((id, e2)) => if id <= u128::MAX {
                match sp_lit(s, e2, ",short_desc:\""@) {
                    Some(e3) => match sp_str(s, e3) {
                        Some((short_desc, e4)) => match sp_lit(s, e4, ",long_desc:"@) {
                            Some(e5) => match sp_opt_str(s, e5) {
                                Some((long_desc, e6)) => match sp_lit(s, e6, ",completed:"@) {
                                    Some(e7) => match sp_bool(s, e7) {
                                        Some((completed, e8)) => match sp_lit(
                                            s,
                                            e8,
                                            ",created_at:("@,
                                        ) {
                                            Some(e9) => sp_task_time(
                                                s,
                                                e9,
                                                TaskPrefix { id: id as u128, short_desc, long_desc, completed },
                                            ),
                                            None => None,
                                        },
                                        None => None,
                                    },
                                    None => None,
                                },
                                None => None,
                            },
                            None => None,
                        },
                        None => None,
                    },
                    None => None,
                }
            } else {
                None
            },
            None => None,
        },
        None => None,
    }
}

/// The already-parsed leading fields of a record.
pub ghost struct TaskPrefix {
    pub id: u128,
    pub short_desc: Seq<char>,
    pub long_desc: Option<Seq<char>>,
    pub completed: bool,
}

/// The trailing timestamp triple of a record, closing the record; the parsed
/// timestamp must be well-formed.
pub open spec fn sp_task_time(s: Seq<char>, i: int, p: TaskPrefix) -> Option<(TaskView, int)> {
    match sp_int(s, i) {
        Some((secs, e1)) => match sp_lit(s, e1, ","@) {
            Some(e2) => match sp_nat(s, e2) {
                Some((nanos, e3)) => match sp_lit(s, e3, ","@) {
                    Some(e4) => match sp_int(s, e4) {
                        Some((offset_secs, e5)) => match sp_lit(s, e5, "))"@) {
                            Some(e6) => if 0 <= secs <= crate::task::MAX_RENDERABLE_SECS && 0
                                <= nanos < 2_000_000_000 && -86_400 < offset_secs < 86_400 {
                                Some(
                                    (
                                        TaskView {
                                            id: p.id,
                                            short_desc: p.short_desc,
                                            long_desc: p.long_desc,
                                            completed: p.completed,
                                            created_at: Timestamp {
                                                secs: secs as i64,
                                                nanos: nanos as u32,
                                                offset_secs: offset_secs as i32,
                                            },
                                        },
                                        e6,
                                    ),
                                )
                            } else {
                                None
                            },
                            None => None,
                        },
                        None => None,
                    },
                    None => None,
                },
                None => None,
            },
            None => None,
        },
        None => None,
    }
}

/// The records up to and over the closing bracket.
pub open spec fn sp_tasks(s: Seq<char>, i: int) -> Option<(Seq<TaskView>, int)>
    decreases s.len() - i,
{
    if !(0 <= i < s.len()) {
        None
    } else if s[i] == ']' {
        Some((Seq::empty(), i + 1))
    } else {
        match sp_task(s, i) {
            Some((t, e1)) => if i < e1 < s.len() {
                match sp_lit(s, e1, ","@) {
                    Some(e2) => if e1 < e2 <= s.len() {
                        match sp_tasks(s, e2) {
                            Some((ts, e3)) => Some((seq![t] + ts, e3)),
                            None => None,
                        }
                    } else {
                        None
                    },
                    None => None,
                }
            } else {
                None
            },
            None => None,
        }
    }
}

/// A whole serialized collection: brackets around the records, nothing after.
pub open spec fn sp_all(s: Seq<char>) -> Option<Seq<TaskView>> {
    if s.len() >= 1 && s[0] == '[' {
        match sp_tasks(s, 1) {
            Some((ts, e)) => if e == s.len() {
                Some(ts)
            } else {
                None
            },
            None => None,
        }
    } else {
        None
    }
}

// ---------------------------------------------------------------------------
// Concatenation laws of the serializer, used by the writer and the proofs.
// ---------------------------------------------------------------------------
/// Quoting a concatenation quotes the pieces.
pub proof fn lemma_ser_str_append(a: Seq<char>, b: Seq<char>)
    ensures
        ser_str(a + b) == ser_str(a) + ser_str(b),
    decreases a.len(),
{
    if a.len() == 0 {
        assert(a + b =~= b);
        assert(ser_str(a) + ser_str(b) =~= ser_str(b));
    } else {
        assert((a + b).drop_first() =~= a.drop_first() + b);
        lemma_ser_str_append(a.drop_first(), b);
        assert((a + b)[0] == a[0]);
        assert(ser_str(a + b) =~= ser_str(a) + ser_str(b));
    }
}

/// Serializing a concatenation of records serializes the pieces.
pub proof fn lemma_ser_tasks_append(a: Seq<TaskView>, b: Seq<TaskView>)
    ensures
        ser_tasks(a + b) == ser_tasks(a) + ser_tasks(b),
    decreases a.len(),
{
    if a.len() == 0 {
        assert(a + b =~= b);
        assert(ser_tasks(a) + ser_tasks(b) =~= ser_tasks(b));
    } else {
        assert((a + b).drop_first() =~= a.drop_first() + b);
        lemma_ser_tasks_append(a.drop_first(), b);
        assert((a + b)[0] == a[0]);
        assert(ser_tasks(a + b) =~= ser_tasks(a) + ser_tasks(b));
    }
}

// ---------------------------------------------------------------------------
// The writer.
// ---------------------------------------------------------------------------
/// Appends the characters of a fixed piece of text.
fn push_lit(out: &mut Vec<char>, lit: &str)
    ensures
        final(out)@ == old(out)@ + lit@,
{
    let mut l = chars_of(lit);
    out.append(&mut l);
}

/// Appends the decimal rendering of `n`.
fn write_nat(out: &mut Vec<char>, n: u128)
    ensures
        final(out)@ == old(out)@ + ser_nat(n as nat),
    decreases n,
{
    if n < 10 {
        let d = ((48 + n as u8)) as char;
        out.push(d);
        assert(out@ =~= old(out)@ + ser_nat(n as nat));
    } else {
        write_nat(out, n / 10);
        let d = ((48 + (n % 10) as u8)) as char;
        out.push(d);
        assert(out@ =~= old(out)@ + ser_nat(n as nat));
    }
}

/// Appends the decimal rendering of `v`, signed.
fn write_int(out: &mut Vec<char>, v: i64)
    ensures
        final(out)@ == old(out)@ + ser_int(v as int),
{
    if v < 0 {
        out.push('-');
        let m = (-(v as i128)) as u128;
        assert(m as nat == (-(v as int)) as nat);
        write_nat(out, m);
        assert(out@ =~= old(out)@ + ser_int(v as int));
    } else {
        write_nat(out, v as u128);
    }
}

/// Appends the quoted body of `s` (without the surrounding quotes).
fn write_str(out: &mut Vec<char>, s: &str)
    ensures
        final(out)@ == old(out)@ + ser_str(s@),
{
    let cs = chars_of(s);
    let mut k: usize = 0;
    while k < cs.len()
        invariant
            0 <= k <= cs.len(),
            cs@ == s@,
            out@ == old(out)@ + ser_str(cs@.take(k as int)),
        decreases cs.len() - k,
    {
        let c = cs[k];
        if c == '"' || c == '\\' {
            out.push('\\');
        }
        out.push(c);
        proof {
            lemma_ser_str_append(cs@.take(k as int), seq![cs@[k as int]]);
            assert(cs@.take(k as int + 1) =~= cs@.take(k as int) + seq![cs@[k as int]]);
            assert(seq![c].drop_first() =~= Seq::<char>::empty());
            assert(ser_str(Seq::<char>::empty()) == Seq::<char>::empty());
            assert(ser_str(seq![c]) =~= esc_char(c));
            assert(out@ =~= old(out)@ + ser_str(cs@.take(k as int + 1)));
        }
        k += 1;
    }
    assert(cs@.take(cs@.len() as int) =~= s@);
}

/// Appends one serialized task record.
#[verifier::rlimit(100)]
fn write_task(out: &mut Vec<char>, t: &TodoItem)
    ensures
        final(out)@ == old(out)@ + ser_task(t@),
{
    push_lit(out, "(id:");
    write_nat(out, t.id);
    push_lit(out, ",short_desc:\"");
    write_str(out, t.short_desc.as_str());
    push_lit(out, "\"");
    push_lit(out, ",long_desc:");
    match &t.long_desc {
        None => {
            push_lit(out, "None");
        },
        Some(s) => {
            push_lit(out, "Some(\"");
            write_str(out, s.as_str());
            push_lit(out, "\"");
            push_lit(out, ")");
            assert(ser_opt_str(t@.long_desc) == "Some(\""@ + ser_str(s@) + "\""@ + ")"@);
        },
    }
    push_lit(out, ",completed:");
    if t.completed {
        push_lit(out, "true");
    } else {
        push_lit(out, "false");
    }
    push_lit(out, ",created_at:(");
    let ghost head = out@;
    write_int(out, t.created_at.secs);
    push_lit(out, ",");
    write_nat(out, t.created_at.nanos as u128);
    push_lit(out, ",");
    write_int(out, t.created_at.offset_secs as i64);
    proof {
        assert(out@ =~= head + ser_time(t@.created_at));
    }
    push_lit(out, "))");
    assert(out@ =~= old(out)@ + ser_task(t@));
}

/// The save operation's text: the whole collection, serialized.
pub fn save_to_string(todos: &Vec<TodoItem>) -> (r: String)
    ensures
        r@ == ser_all(todos.deep_view()),
{
    let ghost dv = todos.deep_view();
    let mut out: Vec<char> = Vec::new();
    push_lit(&mut out, "[");
    let mut k: usize = 0;
    while k < todos.len()
        invariant
            0 <= k <= todos.len(),
            dv == todos.deep_view(),
            dv.len() == todos.len(),
            out@ == "["@ + ser_tasks(dv.take(k as int)),
        decreases todos.len() - k,
    {
        write_task(&mut out, &todos[k]);
        push_lit(&mut out, ",");
        proof {
            assert(todos@[k as int]@ == dv[k as int]);
            lemma_ser_tasks_append(dv.take(k as int), seq![dv[k as int]]);
            assert(dv.take(k as int + 1) =~= dv.take(k as int) + seq![dv[k as int]]);
            assert(seq![dv[k as int]].drop_first() =~= Seq::<TaskView>::empty());
            assert(ser_tasks(Seq::<TaskView>::empty()) == Seq::<char>::empty());
            assert(ser_tasks(seq![dv[k as int]]) =~= ser_task(dv[k as int]) + ","@);
            assert(out@ =~= "["@ + ser_tasks(dv.take(k as int + 1)));
        }
        k += 1;
    }
    push_lit(&mut out, "]");
    proof {
        assert(dv.take(dv.len() as int) =~= dv);
        assert(out@ =~= ser_all(dv));
    }
    string_of(out)
}

// ---------------------------------------------------------------------------
// The parser, executable.  Each function is exact against its spec parser.
// ---------------------------------------------------------------------------
/// Whether position `j` holds a digit.
fn digit_at(s: &Vec<char>, j: usize) -> (r: bool)
    ensures
        r == (j < s@.len() && is_digit(s@[j as int])),
{
    if j < s.len() {
        let u = s[j] as u32;
        48 <= u && u <= 57
    } else {
        false
    }
}

/// The folded digits never fall below the accumulator they started from.
proof fn lemma_sp_digits_lb(s: Seq<char>, i: int, acc: int)
    requires
        acc >= 0,
    ensures
        sp_digits(s, i, acc).0 >= acc,
        sp_digits(s, i, acc).1 >= i,
    decreases s.len() - i,
{
    if 0 <= i < s.len() && is_digit(s[i]) {
        assert(acc * 10 >= acc) by (nonlinear_arith)
            requires
                acc >= 0,
        ;
        lemma_sp_digits_lb(s, i + 1, acc * 10 + digit_val(s[i]));
    }
}

/// A decimal natural number, bounded by the widest identifier.
fn parse_u128(s: &Vec<char>, i: usize) -> (r: Option<(u128, usize)>)
    ensures
        sp_nat(s@, i as int) is None ==> r is None,
        sp_nat(s@, i as int) matches Some((v, e)) ==> {
            &&& v <= u128::MAX ==> (r matches Some(p) && p.0 == v && p.1 == e)
            &&& v > u128::MAX ==> r is None
        },
{
    let n = s.len();
    let mut j: usize = i;
    let mut acc: u128 = 0;
    let mut more = digit_at(s, j);
    if !more {
        return None;
    }
    while more
        invariant
            i <= j <= n,
            n == s@.len(),
            more == ((j as int) < s@.len() && is_digit(s@[j as int])),
            sp_nat(s@, i as int) == Some::<(int, int)>(sp_digits(s@, j as int, acc as int)),
        decreases s@.len() - j,
    {
        let c = s[j];
        let u = c as u32;
        let d = (u - 48) as u128;
        assert(d == digit_val(s@[j as int]));
        match acc.checked_mul(10) {
            Some(m) => match m.checked_add(d) {
                Some(a2) => {
                    acc = a2;
                    j += 1;
                    more = digit_at(s, j);
                },
                None => {
                    proof {
                        lemma_sp_digits_lb(s@, j as int + 1, acc as int * 10 + d as int);
                    }
                    return None;
                },
            },
            None => {
                proof {
                    lemma_sp_digits_lb(s@, j as int + 1, acc as int * 10 + d as int);
                }
                return None;
            },
        }
    }
    Some((acc, j))
}

/// A decimal integer, bounded by the widest signed field.
fn parse_i64(s: &Vec<char>, i: usize) -> (r: Option<(i64, usize)>)
    ensures
        sp_int(s@, i as int) is None ==> r is None,
        sp_int(s@, i as int) matches Some((v, e)) ==> {
            &&& i64::MIN <= v <= i64::MAX ==> (r matches Some(p) && p.0 == v && p.1 == e)
            &&& !(i64::MIN <= v <= i64::MAX) ==> r is None
        },
{
    if i < s.len() && s[i] == '-' {
        match parse_u128(s, i + 1) {
            Some((m, e)) => {
                if m <= 0x7fff_ffff_ffff_ffff {
                    Some((-(m as i64), e))
                } else if m == 0x8000_0000_0000_0000 {
                    Some((i64::MIN, e))
                } else {
                    None
                }
            },
            None => None,
        }
    } else {
        match parse_u128(s, i) {
            Some((m, e)) => {
                if m <= 0x7fff_ffff_ffff_ffff {
                    Some((m as i64, e))
                } else {
                    None
                }
            },
            None => None,
        }
    }
}

/// A fixed literal.
fn parse_lit(s: &Vec<char>, i: usize, lit: &str) -> (r: Option<usize>)
    ensures
        r matches Some(e) ==> sp_lit(s@, i as int, lit@) == Some(e as int),
        r is None ==> sp_lit(s@, i as int, lit@) is None,
{
    let l = chars_of(lit);
    let sn = s.len();
    let ln = l.len();
    if i > sn || ln > sn - i {
        return None;
    }
    let mut k: usize = 0;
    while k < ln
        invariant
            0 <= k <= ln,
            ln == l@.len(),
            sn == s@.len(),
            l@ == lit@,
            i + ln <= sn,
            forall|j: int| 0 <= j < k ==> s@[i + j] == l@[j],
        decreases ln - k,
    {
        if s[i + k] != l[k] {
            proof {
                let sub = s@.subrange(i as int, i as int + lit@.len() as int);
                assert(sub[k as int] == s@[i as int + k as int]);
                assert(sub[k as int] != lit@[k as int]);
            }
            return None;
        }
        k += 1;
    }
    proof {
        assert(s@.subrange(i as int, i as int + lit@.len() as int) =~= lit@);
    }
    Some(i + l.len())
}

/// A quoted string's body, up to and over the closing quote.
fn parse_string(s: &Vec<char>, i: usize) -> (r: Option<(Vec<char>, usize)>)
    ensures
        sp_str(s@, i as int) is None ==> r is None,
        sp_str(s@, i as int) matches Some((t, e)) ==> (r matches Some(p) && p.0@ == t && p.1 == e),
{
    if i >= s.len() {
        return None;
    }
    let mut acc: Vec<char> = Vec::new();
    let mut j: usize = i;
    proof {
        match sp_str(s@, i as int) {
            Some((t, e)) => {
                assert(Seq::<char>::empty() + t =~= t);
            },
            None => {},
        }
    }
    while j < s.len()
        invariant
            i <= j,
            j <= s@.len(),
            (match sp_str(s@, j as int) {
                Some((t, e)) => sp_str(s@, i as int) == Some::<(Seq<char>, int)>((acc@ + t, e)),
                None => sp_str(s@, i as int) is None,
            }),
        decreases s@.len() - j,
    {
        let c = s[j];
        if c == '"' {
            proof {
                assert(sp_str(s@, j as int) == Some::<(Seq<char>, int)>(
                    (Seq::<char>::empty(), j as int + 1),
                ));
                assert(acc@ + Seq::<char>::empty() =~= acc@);
            }
            return Some((acc, j + 1));
        } else if c == '\\' {
            if j + 1 >= s.len() {
                return None;
            }
            let ghost acc0 = acc@;
            let c2 = s[j + 1];
            acc.push(c2);
            proof {
                match sp_str(s@, j as int + 2) {
                    Some((t, e)) => {
                        assert(acc0 + (seq![s@[j as int + 1]] + t) =~= acc@ + t);
                    },
                    None => {},
                }
            }
            j += 2;
        } else {
            let ghost acc0 = acc@;
            acc.push(c);
            proof {
                match sp_str(s@, j as int + 1) {
                    Some((t, e)) => {
                        assert(acc0 + (seq![s@[j as int]] + t) =~= acc@ + t);
                    },
                    None => {},
                }
            }
            j += 1;
        }
    }
    None
}

/// `None`, or `Some("...")`.
fn parse_opt_string(s: &Vec<char>, i: usize) -> (r: Option<(Option<String>, usize)>)
    ensures
        sp_opt_str(s@, i as int) is None ==> r is None,
        sp_opt_str(s@, i as int) matches Some((o, e)) ==> (r matches Some(p) && p.0.deep_view() == o
            && p.1 == e),
{
    match parse_lit(s, i, "None") {
        Some(e) => Some((None, e)),
        None => match parse_lit(s, i, "Some(\"") {
            Some(e1) => match parse_string(s, e1) {
                Some((t, e2)) => match parse_lit(s, e2, ")") {
                    Some(e3) => Some((Some(string_of(t)), e3)),
                    None => None,
                },
                None => None,
            },
            None => None,
        },
    }
}

/// `true` or `false`.
fn parse_bool(s: &Vec<char>, i: usize) -> (r: Option<(bool, usize)>)
    ensures
        sp_bool(s@, i as int) is None ==> r is None,
        sp_bool(s@, i as int) matches Some((b, e)) ==> (r matches Some(p) && p.0 == b && p.1 == e),
{
    match parse_lit(s, i, "true") {
        Some(e) => Some((true, e)),
        None => match parse_lit(s, i, "false") {
            Some(e) => Some((false, e)),
            None => None,
        },
    }
}

/// One task record; the parsed timestamp is checked well-formed.
#[verifier::rlimit(60)]
fn parse_task(s: &Vec<char>, i: usize) -> (r: Option<(TodoItem, usize)>)
    ensures
        sp_task(s@, i as int) is None ==> r is None,
        sp_task(s@, i as int) matches Some((t, e)) ==> (r matches Some(p) && p.0@ == t && p.1 == e),
        r matches Some(p) ==> p.0@.created_at.wf(),
{
    let e1 = match parse_lit(s, i, "(id:") {
        Some(e) => e,
        None => {
            return None;
        },
    };
    let (id, e2) = match parse_u128(s, e1) {
        Some(p) => p,
        None => {
            return None;
        },
    };
    let e3 = match parse_lit(s, e2, ",short_desc:\"") {
        Some(e) => e,
        None => {
            return None;
        },
    };
    let (short_chars, e4) = match parse_string(s, e3) {
        Some(p) => p,
        None => {
            return None;
        },
    };
    let e5 = match parse_lit(s, e4, ",long_desc:") {
        Some(e) => e,
        None => {
            return None;
        },
    };
    let (long_desc, e6) = match parse_opt_string(s, e5) {
        Some(p) => p,
        None => {
            return None;
        },
    };
    let e7 = match parse_lit(s, e6, ",completed:") {
        Some(e) => e,
        None => {
            return None;
        },
    };
    let (completed, e8) = match parse_bool(s, e7) {
        Some(p) => p,
        None => {
            return None;
        },
    };
    let e9 = match parse_lit(s, e8, ",created_at:(") {
        Some(e) => e,
        None => {
            return None;
        },
    };
    let (secs, e10) = match parse_i64(s, e9) {
        Some(p) => p,
        None => {
            return None;
        },
    };
    let e11 = match parse_lit(s, e10, ",") {
        Some(e) => e,
        None => {
            return None;
        },
    };
    let (nanos_wide, e12) = match parse_u128(s, e11) {
        Some(p) => p,
        None => {
            return None;
        },
    };
    let e13 = match parse_lit(s, e12, ",") {
        Some(e) => e,
        None => {
            return None;
        },
    };
    let (offset_wide, e14) = match parse_i64(s, e13) {
        Some(p) => p,
        None => {
            return None;
        },
    };
    let e15 = match parse_lit(s, e14, "))") {
        Some(e) => e,
        None => {
            return None;
        },
    };
    if !(0 <= secs && secs <= crate::task::MAX_RENDERABLE_SECS) {
        return None;
    }
    if !(nanos_wide < 2_000_000_000) {
        return None;
    }
    if !(-86_400 < offset_wide && offset_wide < 86_400) {
        return None;
    }
    let item = TodoItem {
        id,
        short_desc: string_of(short_chars),
        long_desc,
        completed,
        created_at: Timestamp {
            secs,
            nanos: nanos_wide as u32,
            offset_secs: offset_wide as i32,
        },
    };
    Some((item, e15))
}

/// The parse of a whole store file.
pub fn parse_todos(content: &str) -> (r: Result<Vec<TodoItem>, PersistenceError>)
    ensures
        sp_all(content@) matches Some(vs) ==> (r matches Ok(v) && v.deep_view() == vs && wf_tasks(
            vs,
        )),
        sp_all(content@) is None ==> r == Err::<Vec<TodoItem>, PersistenceError>(
            PersistenceError::Malformed,
        ),
{
    let s = chars_of(content);
    if s.len() == 0 {
        return Err(PersistenceError::Malformed);
    }
    if s[0] != '[' {
        return Err(PersistenceError::Malformed);
    }
    let mut out: Vec<TodoItem> = Vec::new();
    let mut j: usize = 1;
    while j < s.len()
        invariant
            1 <= j,
            j <= s@.len(),
            s@ == content@,
            s@.len() >= 1 && s@[0] == '[',
            wf_tasks(out.deep_view()),
            (match sp_tasks(s@, j as int) {
                Some((ts, e)) => sp_tasks(s@, 1) == Some::<(Seq<TaskView>, int)>(
                    (out.deep_view() + ts, e),
                ),
                None => sp_tasks(s@, 1) is None,
            }),
        decreases s@.len() - j,
    {
        if s[j] == ']' {
            if j + 1 == s.len() {
                proof {
                    assert(out.deep_view() + Seq::<TaskView>::empty() =~= out.deep_view());
                }
                return Ok(out);
            } else {
                return Err(PersistenceError::Malformed);
            }
        }
        let (item, e1) = match parse_task(&s, j) {
            Some(p) => p,
            None => {
                return Err(PersistenceError::Malformed);
            },
        };
        if !(j < e1 && e1 < s.len()) {
            return Err(PersistenceError::Malformed);
        }
        let e2 = match parse_lit(&s, e1, ",") {
            Some(e) => e,
            None => {
                return Err(PersistenceError::Malformed);
            },
        };
        let ghost out0 = out.deep_view();
        let ghost iv = item@;
        out.push(item);
        proof {
            reveal_strlit(",");
            assert(out.deep_view() =~= out0.push(iv));
            match sp_tasks(s@, e2 as int) {
                Some((ts, e)) => {
                    assert(out0 + (seq![iv] + ts) =~= out.deep_view() + ts);
                },
                None => {},
            }
        }
        j = e2;
    }
    Err(PersistenceError::Malformed)
}

/// The load operation on a file's text: no file is a normal, empty store; a
/// present file must parse, else loading fails.
pub fn load_from(content: Option<&str>) -> (r: Result<Vec<TodoItem>, PersistenceError>)
    ensures
        content is None ==> (r matches Ok(v) && v@.len() == 0),
        content matches Some(text) ==> {
            &&& sp_all(text@) matches Some(vs) ==> (r matches Ok(v) && v.deep_view() == vs
                && wf_tasks(vs))
            &&& sp_all(text@) is None ==> r == Err::<Vec<TodoItem>, PersistenceError>(
                PersistenceError::Malformed,
            )
        },
{
    match content {
        None => Ok(Vec::new()),
        Some(text) => parse_todos(text),
    }
}

// ---------------------------------------------------------------------------
// The round trip: parsing what the serializer wrote gives the records back.
// ---------------------------------------------------------------------------
/// Powers of ten.
pub open spec fn pow10(k: nat) -> nat
    decreases k,
{
    if k == 0 {
        1
    } else {
        10 * pow10((k - 1) as nat)
    }
}

proof fn lemma_pow10_pos(k: nat)
    ensures
        pow10(k) >= 1,
    decreases k,
{
    if k > 0 {
        lemma_pow10_pos((k - 1) as nat);
    }
}

proof fn lemma_digit_char_val(d: int)
    requires
        0 <= d < 10,
    ensures
        is_digit(digit_char(d)),
        digit_val(digit_char(d)) == d,
{
}

proof fn lemma_ser_nat_digits(n: nat)
    ensures
        ser_nat(n).len() >= 1,
        forall|k: int| 0 <= k < ser_nat(n).len() ==> is_digit(#[trigger] ser_nat(n)[k]),
    decreases n,
{
    if n < 10 {
        lemma_digit_char_val(n as int);
    } else {
        lemma_ser_nat_digits(n / 10);
        lemma_digit_char_val((n % 10) as int);
    }
}

/// Folding over a rendered number shifts the accumulator past it.
proof fn lemma_sp_digits_chain(s: Seq<char>, i: int, n: nat, acc: int)
    requires
        acc >= 0,
        0 <= i,
        i + ser_nat(n).len() <= s.len(),
        s.subrange(i, i + ser_nat(n).len() as int) == ser_nat(n),
    ensures
        sp_digits(s, i, acc) == sp_digits(
            s,
            i + ser_nat(n).len() as int,
            acc * pow10(ser_nat(n).len()) + n,
        ),
    decreases n,
{
    let l = ser_nat(n).len() as int;
    if n < 10 {
        lemma_digit_char_val(n as int);
        assert(s[i] == s.subrange(i, i + 1)[0]);
        assert(s[i] == digit_char(n as int));
        assert(pow10(1) == 10 * pow10(0));
        assert(sp_digits(s, i, acc) == sp_digits(s, i + 1, acc * 10 + n));
    } else {
        let m = n / 10;
        let d = (n % 10) as int;
        let lm = ser_nat(m).len() as int;
        assert(ser_nat(n) == ser_nat(m).push(digit_char(d)));
        assert(s.subrange(i, i + lm) =~= ser_nat(m)) by {
            assert forall|k: int| 0 <= k < lm implies s.subrange(i, i + lm)[k] == ser_nat(m)[k] by {
                assert(s.subrange(i, i + l)[k] == ser_nat(n)[k]);
            }
        }
        lemma_sp_digits_chain(s, i, m, acc);
        let mid = acc * pow10(lm as nat) + m;
        lemma_pow10_pos(lm as nat);
        assert(acc * pow10(lm as nat) >= 0) by (nonlinear_arith)
            requires
                acc >= 0 && pow10(lm as nat) >= 1,
        ;
        lemma_digit_char_val(d);
        assert(s[i + lm] == s.subrange(i, i + l)[lm]);
        assert(s[i + lm] == digit_char(d));
        assert(sp_digits(s, i + lm, mid) == sp_digits(s, i + lm + 1, mid * 10 + d));
        assert(pow10((lm + 1) as nat) == 10 * pow10(lm as nat));
        assert((acc * pow10(lm as nat) + m) * 10 + d == acc * (10 * pow10(lm as nat)) + (m * 10
            + d)) by (nonlinear_arith);
        assert(m * 10 + d == n) by {
            vstd::arithmetic::div_mod::lemma_fundamental_div_mod(n as int, 10);
        }
    }
}

/// A rendered number followed by a non-digit parses back to itself.
proof fn lemma_sp_nat_rt(s: Seq<char>, i: int, n: nat)
    requires
        0 <= i,
        i + ser_nat(n).len() <= s.len(),
        s.subrange(i, i + ser_nat(n).len() as int) == ser_nat(n),
        i + ser_nat(n).len() == s.len() || !is_digit(s[i + ser_nat(n).len()]),
    ensures
        sp_nat(s, i) == Some::<(int, int)>((n as int, i + ser_nat(n).len() as int)),
{
    let l = ser_nat(n).len() as int;
    lemma_ser_nat_digits(n);
    assert(s[i] == s.subrange(i, i + l)[0]);
    assert(is_digit(s[i]));
    lemma_sp_digits_chain(s, i, n, 0);
    lemma_pow10_pos(ser_nat(n).len());
    assert(0 * pow10(ser_nat(n).len()) == 0) by (nonlinear_arith);
    assert(sp_digits(s, i + l, n as int) == (n as int, i + l));
}

/// A rendered integer followed by a non-digit parses back to itself.
proof fn lemma_sp_int_rt(s: Seq<char>, i: int, v: int)
    requires
        0 <= i,
        i + ser_int(v).len() <= s.len(),
        s.subrange(i, i + ser_int(v).len() as int) == ser_int(v),
        i + ser_int(v).len() == s.len() || !is_digit(s[i + ser_int(v).len()]),
    ensures
        sp_int(s, i) == Some::<(int, int)>((v, i + ser_int(v).len() as int)),
{
    let l = ser_int(v).len() as int;
    if v < 0 {
        let n = (-v) as nat;
        assert(s[i] == s.subrange(i, i + l)[0]);
        assert(s[i] == '-');
        assert(s.subrange(i + 1, i + l) =~= ser_nat(n)) by {
            assert forall|k: int| 0 <= k < l - 1 implies s.subrange(i + 1, i + l)[k] == ser_nat(
                n,
            )[k] by {
                assert(s.subrange(i, i + l)[k + 1] == ser_int(v)[k + 1]);
            }
        }
        lemma_sp_nat_rt(s, i + 1, n);
    } else {
        let n = v as nat;
        lemma_ser_nat_digits(n);
        assert(s[i] == s.subrange(i, i + l)[0]);
        assert(is_digit(s[i]));
        assert(('-' as u32) == 45);
        assert(s[i] != '-');
        lemma_sp_nat_rt(s, i, n);
    }
}

/// A quoted body with its closing quote parses back to itself.
proof fn lemma_sp_str_rt(s: Seq<char>, i: int, body: Seq<char>)
    requires
        0 <= i,
        i + ser_str(body).len() + 1 <= s.len(),
        s.subrange(i, i + ser_str(body).len() + 1) == ser_str(body).push('"'),
    ensures
        sp_str(s, i) == Some::<(Seq<char>, int)>((body, i + ser_str(body).len() + 1)),
    decreases body.len(),
{
    let l = ser_str(body).len() as int;
    if body.len() == 0 {
        assert(s[i] == s.subrange(i, i + 1)[0]);
        assert(s[i] == '"');
        assert(body =~= Seq::<char>::empty());
    } else {
        let c = body[0];
        let e = esc_char(c);
        let rest = body.drop_first();
        let w = ser_str(body);
        let wr = ser_str(rest);
        assert(w == e + wr);
        let el = e.len() as int;
        assert(s.subrange(i + el, i + l + 1) =~= wr.push('"')) by {
            assert forall|k: int| 0 <= k < l + 1 - el implies s.subrange(i + el, i + l + 1)[k]
                == wr.push('"')[k] by {
                assert(s.subrange(i, i + l + 1)[el + k] == w.push('"')[el + k]);
            }
        }
        lemma_sp_str_rt(s, i + el, rest);
        if c == '"' || c == '\\' {
            assert(s[i] == s.subrange(i, i + l + 1)[0]);
            assert(s[i + 1] == s.subrange(i, i + l + 1)[1]);
            assert(s[i] == '\\' && s[i + 1] == c);
            assert(seq![s[i + 1]] + rest =~= body);
        } else {
            assert(s[i] == s.subrange(i, i + l + 1)[0]);
            assert(s[i] == c);
            assert(seq![s[i]] + rest =~= body);
        }
    }
}

/// A subrange equal to a two-part concatenation splits into its parts.
proof fn lemma_split(s: Seq<char>, c: int, a: Seq<char>, b: Seq<char>)
    requires
        0 <= c,
        c + a.len() + b.len() <= s.len(),
        s.subrange(c, c + a.len() + b.len()) == a + b,
    ensures
        s.subrange(c, c + a.len() as int) == a,
        s.subrange(c + a.len() as int, c + a.len() + b.len()) == b,
{
    assert(s.subrange(c, c + a.len() as int) =~= a) by {
        assert forall|k: int| 0 <= k < a.len() implies s.subrange(c, c + a.len() as int)[k]
            == a[k] by {
            assert(s.subrange(c, c + a.len() + b.len())[k] == (a + b)[k]);
        }
    }
    assert(s.subrange(c + a.len() as int, c + a.len() + b.len()) =~= b) by {
        assert forall|k: int| 0 <= k < b.len() implies s.subrange(
            c + a.len() as int,
            c + a.len() + b.len(),
        )[k] == b[k] by {
            assert(s.subrange(c, c + a.len() + b.len())[a.len() + k] == (a + b)[a.len() + k]);
            assert((a + b)[a.len() + k] == b[k]);
            assert(s.subrange(c + a.len() as int, c + a.len() + b.len())[k] == s[c + a.len() + k]);
            assert(s.subrange(c, c + a.len() + b.len())[a.len() + k] == s[c + a.len() + k]);
        }
    }
}

/// A rendered boolean parses back to itself.
proof fn lemma_sp_bool_rt(s: Seq<char>, i: int, b: bool)
    requires
        0 <= i,
        i + ser_bool(b).len() <= s.len(),
        s.subrange(i, i + ser_bool(b).len() as int) == ser_bool(b),
    ensures
        sp_bool(s, i) == Some::<(bool, int)>((b, i + ser_bool(b).len() as int)),
{
    reveal_strlit("true");
    reveal_strlit("false");
    if b {
    } else {
        assert(s[i] == s.subrange(i, i + 5)[0]);
        if i + 4 <= s.len() {
            assert(s.subrange(i, i + 4)[0] == s[i]);
            assert(s.subrange(i, i + 4) != "true"@);
        }
    }
}

/// A rendered optional string parses back to itself.
proof fn lemma_sp_opt_rt(s: Seq<char>, i: int, o: Option<Seq<char>>)
    requires
        0 <= i,
        i + ser_opt_str(o).len() <= s.len(),
        s.subrange(i, i + ser_opt_str(o).len() as int) == ser_opt_str(o),
    ensures
        sp_opt_str(s, i) == Some::<(Option<Seq<char>>, int)>(
            (o, i + ser_opt_str(o).len() as int),
        ),
{
    reveal_strlit("None");
    reveal_strlit("Some(\"");
    reveal_strlit("\"");
    reveal_strlit(")");
    let l = ser_opt_str(o).len() as int;
    match o {
        None => {
        },
        Some(body) => {
            let p1 = "Some(\""@;
            let p2 = ser_str(body);
            let q = "\""@;
            let p3 = ")"@;
            assert(s[i] == s.subrange(i, i + l)[0]);
            assert(s[i] == 'S');
            if i + 4 <= s.len() {
                assert(s.subrange(i, i + 4)[0] == s[i]);
                assert(s.subrange(i, i + 4) != "None"@);
            }
            assert(ser_opt_str(o) =~= p1 + (p2 + q + p3));
            lemma_split(s, i, p1, p2 + q + p3);
            let e1 = i + p1.len() as int;
            assert((p2 + q + p3) =~= (p2 + q) + p3);
            lemma_split(s, e1, p2 + q, p3);
            assert(s.subrange(e1, e1 + p2.len() + 1) =~= p2.push('"')) by {
                assert forall|k: int| 0 <= k < p2.len() + 1 implies s.subrange(
                    e1,
                    e1 + p2.len() + 1,
                )[k] == p2.push('"')[k] by {
                    assert(s.subrange(e1, e1 + (p2 + q).len() as int)[k] == (p2 + q)[k]);
                }
            }
            lemma_sp_str_rt(s, e1, body);
            let e2 = e1 + p2.len() + 1;
            assert(s.subrange(e2, e2 + p3.len() as int) == p3);
        },
    }
}


/// A rendered timestamp triple with the closing parentheses parses back to
/// itself, completing the record with the already-parsed leading fields.
#[verifier::rlimit(100)]
#[verifier::spinoff_prover]
proof fn lemma_sp_time_rt(s: Seq<char>, i: int, p: TaskPrefix, ct: Timestamp)
    requires
        0 <= i,
        ct.wf(),
        i + ser_time(ct).len() + 2 <= s.len(),
        s.subrange(i, i + ser_time(ct).len() + 2) == ser_time(ct) + "))"@,
    ensures
        sp_task_time(s, i, p) == Some::<(TaskView, int)>(
            (
                TaskView {
                    id: p.id,
                    short_desc: p.short_desc,
                    long_desc: p.long_desc,
                    completed: p.completed,
                    created_at: ct,
                },
                i + ser_time(ct).len() + 2,
            ),
        ),
{
    reveal_strlit(",");
    reveal_strlit("))");
    let p10 = ser_int(ct.secs as int);
    let c1 = ","@;
    let p11 = ser_nat(ct.nanos as nat);
    let c2 = ","@;
    let p12 = ser_int(ct.offset_secs as int);
    let p13 = "))"@;
    lemma_ser_nat_digits(ct.nanos as nat);
    let w = ser_time(ct) + p13;
    assert(s.subrange(i, i + w.len() as int) == w);

    let r11 = c1 + p11 + c2 + p12 + p13;
    assert(w =~= p10 + r11);
    lemma_split(s, i, p10, r11);
    let o11 = i + p10.len() as int;
    assert(s[o11] == r11[0]) by {
        assert(s.subrange(o11, o11 + r11.len() as int)[0] == r11[0]);
    }
    assert(r11[0] == ',');
    lemma_sp_int_rt(s, i, ct.secs as int);

    let r12 = p11 + c2 + p12 + p13;
    assert(r11 =~= c1 + r12);
    lemma_split(s, o11, c1, r12);
    let o12 = o11 + c1.len() as int;

    let r13 = c2 + p12 + p13;
    assert(r12 =~= p11 + r13);
    lemma_split(s, o12, p11, r13);
    let o13 = o12 + p11.len() as int;
    assert(s[o13] == r13[0]) by {
        assert(s.subrange(o13, o13 + r13.len() as int)[0] == r13[0]);
    }
    assert(r13[0] == ',');
    lemma_sp_nat_rt(s, o12, ct.nanos as nat);

    let r14 = p12 + p13;
    assert(r13 =~= c2 + r14);
    lemma_split(s, o13, c2, r14);
    let o14 = o13 + c2.len() as int;

    lemma_split(s, o14, p12, p13);
    let o15 = o14 + p12.len() as int;
    assert(s[o15] == p13[0]) by {
        assert(s.subrange(o15, o15 + p13.len() as int)[0] == p13[0]);
    }
    assert(p13[0] == ')');
    lemma_sp_int_rt(s, o14, ct.offset_secs as int);
}

/// A rendered task record parses back to itself.
#[verifier::rlimit(100)]
#[verifier::spinoff_prover]
proof fn lemma_sp_task_rt(s: Seq<char>, i: int, t: TaskView)
    requires
        0 <= i,
        t.created_at.wf(),
        i + ser_task(t).len() <= s.len(),
        s.subrange(i, i + ser_task(t).len() as int) == ser_task(t),
    ensures
        sp_task(s, i) == Some::<(TaskView, int)>((t, i + ser_task(t).len() as int)),
{
    reveal_strlit("(id:");
    reveal_strlit(",short_desc:\"");
    reveal_strlit("\"");
    reveal_strlit(",long_desc:");
    reveal_strlit(",completed:");
    reveal_strlit(",created_at:(");
    reveal_strlit(",");
    reveal_strlit("))");
    let p1 = "(id:"@;
    let p2 = ser_nat(t.id as nat);
    let p3 = ",short_desc:\""@;
    let p4 = ser_str(t.short_desc);
    let q = "\""@;
    let p5 = ",long_desc:"@;
    let p6 = ser_opt_str(t.long_desc);
    let p7 = ",completed:"@;
    let p8 = ser_bool(t.completed);
    let p9 = ",created_at:("@;
    let p10 = ser_time(t.created_at);
    let p13 = "))"@;
    lemma_ser_nat_digits(t.id as nat);

    let r1 = p2 + p3 + p4 + q + p5 + p6 + p7 + p8 + p9 + p10 + p13;
    assert(ser_task(t) =~= p1 + r1);
    lemma_split(s, i, p1, r1);
    let o1 = i + p1.len() as int;

    let r2 = p3 + p4 + q + p5 + p6 + p7 + p8 + p9 + p10 + p13;
    assert(r1 =~= p2 + r2);
    lemma_split(s, o1, p2, r2);
    let o2 = o1 + p2.len() as int;
    assert(s[o2] == r2[0]) by {
        assert(s.subrange(o2, o2 + r2.len() as int)[0] == r2[0]);
    }
    assert(r2[0] == ',');
    lemma_sp_nat_rt(s, o1, t.id as nat);

    let r3 = p4 + q + p5 + p6 + p7 + p8 + p9 + p10 + p13;
    assert(r2 =~= p3 + r3);
    lemma_split(s, o2, p3, r3);
    let o3 = o2 + p3.len() as int;

    let r4 = q + p5 + p6 + p7 + p8 + p9 + p10 + p13;
    assert(r3 =~= p4 + r4);
    lemma_split(s, o3, p4, r4);
    let o4 = o3 + p4.len() as int;
    assert(s.subrange(o3, o4 + 1) =~= p4.push('"')) by {
        assert forall|k: int| 0 <= k < p4.len() + 1 implies s.subrange(o3, o4 + 1)[k] == p4.push(
            '"',
        )[k] by {
            if k < p4.len() {
                assert(s.subrange(o3, o4)[k] == p4[k]);
            } else {
                assert(s.subrange(o4, o4 + r4.len() as int)[0] == r4[0]);
                assert(r4[0] == '"');
            }
        }
    }
    lemma_sp_str_rt(s, o3, t.short_desc);
    let o5 = o4 + 1;

    let r5 = p5 + p6 + p7 + p8 + p9 + p10 + p13;
    assert(r4 =~= q + r5);
    lemma_split(s, o4, q, r5);

    let r6 = p6 + p7 + p8 + p9 + p10 + p13;
    assert(r5 =~= p5 + r6);
    lemma_split(s, o5, p5, r6);
    let o6 = o5 + p5.len() as int;

    let r7 = p7 + p8 + p9 + p10 + p13;
    assert(r6 =~= p6 + r7);
    lemma_split(s, o6, p6, r7);
    let o7 = o6 + p6.len() as int;
    lemma_sp_opt_rt(s, o6, t.long_desc);

    let r8 = p8 + p9 + p10 + p13;
    assert(r7 =~= p7 + r8);
    lemma_split(s, o7, p7, r8);
    let o8 = o7 + p7.len() as int;

    let r9 = p9 + p10 + p13;
    assert(r8 =~= p8 + r9);
    lemma_split(s, o8, p8, r9);
    let o9 = o8 + p8.len() as int;
    lemma_sp_bool_rt(s, o8, t.completed);

    let r10 = p10 + p13;
    assert(r9 =~= p9 + r10);
    lemma_split(s, o9, p9, r10);
    let o10 = o9 + p9.len() as int;
    let pfx = TaskPrefix {
        id: t.id,
        short_desc: t.short_desc,
        long_desc: t.long_desc,
        completed: t.completed,
    };
    lemma_sp_time_rt(s, o10, pfx, t.created_at);
    let o16 = o10 + p10.len() + 2;
    assert(o16 == i + ser_task(t).len() as int);

    match sp_task(s, i) {
        Some((pt, pe)) => {
            assert(pt == t);
            assert(pe == o16);
        },
        None => {
            assert(false);
        },
    }
}

/// A rendered record list with its closing bracket parses back to itself.
#[verifier::rlimit(100)]
#[verifier::spinoff_prover]
proof fn lemma_sp_tasks_rt(s: Seq<char>, i: int, ts: Seq<TaskView>)
    requires
        0 <= i,
        forall|k: int| 0 <= k < ts.len() ==> (#[trigger] ts[k]).created_at.wf(),
        i + ser_tasks(ts).len() + 1 <= s.len(),
        s.subrange(i, i + ser_tasks(ts).len() + 1) == ser_tasks(ts).push(']'),
    ensures
        sp_tasks(s, i) == Some::<(Seq<TaskView>, int)>((ts, i + ser_tasks(ts).len() + 1)),
    decreases ts.len(),
{
    reveal_strlit("(id:");
    reveal_strlit(",");
    let l = ser_tasks(ts).len() as int;
    if ts.len() == 0 {
        assert(s[i] == s.subrange(i, i + 1)[0]);
        assert(s[i] == ']');
        assert(ts =~= Seq::<TaskView>::empty());
    } else {
        let t0 = ts[0];
        let w = ser_task(t0);
        let rest = ts.drop_first();
        let rw = ser_tasks(rest);
        assert(ser_tasks(ts) == w + ","@ + rw);
        let whole = ser_tasks(ts).push(']');
        assert(whole =~= w + (","@ + rw.push(']')));
        assert(s.subrange(i, i + whole.len() as int) == whole);
        lemma_split(s, i, w, ","@ + rw.push(']'));
        assert(s[i] == s.subrange(i, i + w.len() as int)[0]);
        assert(w[0] == '(') by {
            assert(w == "(id:"@ + ser_nat(t0.id as nat) + ",short_desc:\""@ + ser_str(
                t0.short_desc,
            ) + "\""@ + ",long_desc:"@ + ser_opt_str(t0.long_desc) + ",completed:"@ + ser_bool(
                t0.completed,
            ) + ",created_at:("@ + ser_time(t0.created_at) + "))"@);
            assert(w[0] == "(id:"@[0]);
        }
        assert(s[i] == '(');
        assert(s[i] != ']');
        lemma_sp_task_rt(s, i, t0);
        let e1 = i + w.len() as int;
        lemma_split(s, e1, ","@, rw.push(']'));
        let e2 = e1 + 1;
        assert(e2 <= s.len());
        assert(s.subrange(e2, e2 + rw.len() + 1) == rw.push(']'));
        assert forall|k: int| 0 <= k < rest.len() implies (#[trigger] rest[k]).created_at.wf() by {
            assert(rest[k] == ts[k + 1]);
        }
        lemma_sp_tasks_rt(s, e2, rest);
        assert(seq![t0] + rest =~= ts);
    }
}

/// The round trip of the store's text form: parsing what the serializer
/// wrote yields exactly the records that were written, for any collection
/// of well-formed tasks.
pub proof fn lemma_save_load_round_trip(ts: Seq<TaskView>)
    requires
        wf_tasks(ts),
    ensures
        sp_all(ser_all(ts)) == Some(ts),
{
    reveal_strlit("[");
    reveal_strlit("]");
    let s = ser_all(ts);
    let l = ser_tasks(ts).len() as int;
    assert(s =~= "["@ + ser_tasks(ts).push(']'));
    assert(s[0] == '[');
    assert(s.subrange(1, 1 + l + 1) =~= ser_tasks(ts).push(']')) by {
        assert forall|k: int| 0 <= k < l + 1 implies s.subrange(1, 1 + l + 1)[k] == ser_tasks(
            ts,
        ).push(']')[k] by {
            assert(s[1 + k] == ("["@ + ser_tasks(ts).push(']'))[1 + k]);
        }
    }
    lemma_sp_tasks_rt(s, 1, ts);
}

} // verus!
