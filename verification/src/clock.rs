//! The wall clock, and dates as chrono writes them.

use vstd::prelude::*;

verus! {

/// Current Unix time in seconds (`chrono::Utc::now().timestamp()`).
///
/// `Utc::now` measures from the Unix epoch and panics before it, and chrono's dates end
/// at year 262142, so the result lies in `[0, 10^13)`; which value comes back depends on
/// the clock and is not stated.
#[verifier::external_body]
pub fn now_timestamp() -> (t: i64)
    ensures
        0 <= t < 10_000_000_000_000i64,
{
    chrono::Utc::now().timestamp()
}

/// How chrono writes the UTC date and time `secs` seconds after the Unix epoch, or `None`
/// where chrono has no such date.
pub uninterp spec fn utc_display(secs: i64) -> Option<Seq<char>>;

/// `chrono::DateTime::<Utc>::from_timestamp(secs, 0)`, written by its `Display`
/// (such as `1970-01-01 00:00:00 UTC`); `None` where chrono has no such date. The text is
/// named by `utc_display`, not restated.
#[verifier::external_body]
pub(crate) fn utc_text(secs: i64) -> (r: Option<String>)
    ensures
        match r {
            Some(s) => utc_display(secs) == Some(s@),
            None => utc_display(secs) is None,
        },
{
    match chrono::DateTime::<chrono::Utc>::from_timestamp(secs, 0) {
        Some(d) => Some(d.to_string()),
        None => None,
    }
}

} // verus!
