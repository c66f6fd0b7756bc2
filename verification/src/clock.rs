//! Where the plugin gets today's date from.

use vstd::prelude::*;

verus! {

/// What `chrono` gives for the calendar date, in UTC, of the moment
/// `unix_seconds` whole seconds after the Unix epoch: its text in the pattern
/// `%B %d, %Y` (the English name of the month, the day in two digits, a
/// comma, the year), or none where `chrono` cannot represent that moment.
pub uninterp spec fn long_date_text(unix_seconds: i64) -> Option<Seq<char>>;

/// Reads the system clock with `chrono::Utc::now` and gives the moment as
/// whole seconds since the Unix epoch, as `DateTime::timestamp` counts them.
///
/// Nothing is claimed of the value: it is whatever the clock says. `Utc::now`
/// panics where the system clock stands before the Unix epoch, which no
/// argument of this function can rule out.
#[verifier::external_body]
fn system_unix_seconds() -> i64 {
    chrono::Utc::now().timestamp()
}

/// Renders the calendar date of the moment `unix_seconds` after the Unix
/// epoch: `chrono::DateTime::from_timestamp` makes the moment, and
/// `DateTime::format` with the pattern `%B %d, %Y` renders it.
///
/// The contract claims that what comes back, a text or none, depends on the
/// seconds alone and is the same on every call. It does not claim for which
/// seconds a text comes back: `from_timestamp` gives none for a moment
/// outside the years that `chrono` can represent.
#[verifier::external_body]
fn long_date(unix_seconds: i64) -> (text: Option<String>)
    ensures
        date_text(text) == long_date_text(unix_seconds),
{
    match chrono::DateTime::from_timestamp(unix_seconds, 0) {
        Some(moment) => Some(moment.format("%B %d, %Y").to_string()),
        None => None,
    }
}

/// A date that may be missing, with its text taken as a sequence of
/// characters.
pub open spec fn date_text(today: Option<String>) -> Option<Seq<char>> {
    match today {
        Some(date) => Some(date@),
        None => None,
    }
}

/// Whether `today` is what may come back as today's date: what `chrono`
/// gives for some moment. Which moment the clock reads is open, so any
/// moment's date may come back; a missing date may come back only if there
/// is a moment for which `chrono` gives none.
pub open spec fn may_be_today(today: Option<Seq<char>>) -> bool {
    exists|unix_seconds: i64| today == #[trigger] long_date_text(unix_seconds)
}

/// Today's date by the system clock: what `chrono` gives for the moment
/// that the clock reads, a text or none. The moment is read with
/// `chrono::Utc::now` on every call.
pub fn today() -> (today: Option<String>)
    ensures
        may_be_today(date_text(today)),
{
    let unix_seconds = system_unix_seconds();
    long_date(unix_seconds)
}

} // verus!
