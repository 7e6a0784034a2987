//! Fresh identifiers and points in time.
use vstd::prelude::*;

verus! {

/// A point in time: seconds and nanoseconds since the Unix epoch, in UTC.
#[derive(Debug, Clone, Copy, PartialEq, Eq, Structural)]
pub struct Timestamp {
    pub secs: i64,
    pub nanos: u32,
}

/// `chrono::Utc::now`: the current time. Nothing is claimed of the value.
#[verifier::external_body]
pub(crate) fn now_utc() -> (r: Timestamp) {
    let now = chrono::Utc::now();
    Timestamp { secs: now.timestamp(), nanos: now.timestamp_subsec_nanos() }
}

/// The first and the last second that a calendar date can be given to.
pub const FIRST_SECOND: i64 = -8334601228800;

pub const LAST_SECOND: i64 = 8210266876799;

/// The moment `secs` seconds after the epoch, where it has a calendar date.
pub open spec fn moment(secs: i64) -> Option<Timestamp> {
    if FIRST_SECOND <= secs <= LAST_SECOND {
        Some(Timestamp { secs, nanos: 0 })
    } else {
        None
    }
}

/// `chrono::DateTime::from_timestamp`, at a whole second: the moment that many seconds after the
/// epoch. There is none before the first day of the year -262143 or after the last day of the
/// year 262142.
#[verifier::external_body]
pub(crate) fn from_seconds(secs: i64) -> (r: Option<Timestamp>)
    ensures
        r == moment(secs),
{
    chrono::DateTime::from_timestamp(secs, 0).map(
        |d| Timestamp { secs: d.timestamp(), nanos: d.timestamp_subsec_nanos() },
    )
}

/// The moment that a text in the form of RFC 3339 names.
pub uninterp spec fn rfc3339_of(s: Seq<char>) -> Option<Timestamp>;

/// `chrono::DateTime::parse_from_rfc3339`: the moment that the text names, if it has the form.
#[verifier::external_body]
pub(crate) fn parse_rfc3339(s: &str) -> (r: Option<Timestamp>)
    ensures
        r == rfc3339_of(s@),
{
    chrono::DateTime::parse_from_rfc3339(s).ok().map(
        |d| Timestamp { secs: d.timestamp(), nanos: d.timestamp_subsec_nanos() },
    )
}

/// `uuid::Uuid::new_v4`: a random identifier, printed in its hyphenated form, which has
/// 36 characters.
#[verifier::external_body]
pub(crate) fn fresh_id() -> (r: String)
    ensures
        r@.len() == 36,
{
    uuid::Uuid::new_v4().to_string()
}

} // verus!
