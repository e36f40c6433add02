//! Trusted bindings to the identifier and clock crates.  Everything else in
//! the library is verified against the contracts stated here.

use vstd::prelude::*;

verus! {

/// What the date formatter renders for an instant given as seconds since the
/// Unix epoch, sub-second nanoseconds, and a fixed UTC offset in seconds.
/// The rendering is a pure function of the three parts.
pub uninterp spec fn formatted_of(secs: int, nanos: int, offset_secs: int) -> Seq<char>;

/// Relies on `uuid::Uuid::new_v4` and `Uuid::as_u128`: a freshly generated
/// random identifier.  Nothing is promised of its value; callers test it.
#[verifier::external_body]
pub fn fresh_id() -> u128 {
    uuid::Uuid::new_v4().as_u128()
}

/// Relies on `chrono::Local::now`, `DateTime::timestamp`,
/// `DateTime::timestamp_subsec_nanos` and `FixedOffset::local_minus_utc`.
/// The sub-second part stays below two seconds (leap seconds included) and a
/// fixed offset is strictly within one day, as chrono's types guarantee; the
/// seconds themselves depend on the machine's clock, so nothing is said of them.
#[verifier::external_body]
pub fn now_parts() -> (r: (i64, u32, i32))
    ensures
        r.1 < 2_000_000_000,
        -86_400 < r.2 < 86_400,
{
    let now = chrono::Local::now();
    (now.timestamp(), now.timestamp_subsec_nanos(), now.offset().local_minus_utc())
}

/// Relies on `chrono::FixedOffset::east_opt`, `DateTime::from_timestamp`,
/// `DateTime::with_timezone` and the `"%b %e, %Y %r"` formatter, whose output
/// uses fixed English names: the rendering is a pure function of the three
/// parts, and it exists whenever the parts are in range (`east_opt` accepts
/// exactly the offsets strictly within one day; `from_timestamp` accepts any
/// seconds up to the year 9999 with a sub-second part below two seconds).
#[verifier::external_body]
pub fn format_parts(secs: i64, nanos: u32, offset_secs: i32) -> (r: Option<String>)
    ensures
        r matches Some(s) ==> s@ == formatted_of(secs as int, nanos as int, offset_secs as int),
        0 <= secs <= 253_402_300_799 && nanos < 2_000_000_000 && -86_400 < offset_secs
            < 86_400 ==> r is Some,
{
    let offset = chrono::FixedOffset::east_opt(offset_secs)?;
    let utc = chrono::DateTime::from_timestamp(secs, nanos)?;
    Some(utc.with_timezone(&offset).format("%b %e, %Y %r").to_string())
}

} // verus!
