//! The time of day and fresh identifiers, both from outside.
use vstd::prelude::*;

verus! {

/// A point in time, in seconds and nanoseconds since 1970-01-01 00:00:00 UTC.
#[derive(Clone, Copy, Debug, PartialEq, Eq, Structural)]
pub struct Timestamp {
    pub seconds: i64,
    pub nanos: u32,
}

/// Calls `chrono::Utc::now`. Of the time that comes back only this is claimed: the part below a
/// second is less than a second. The clock of the machine has to stand after the beginning of 1970,
/// or the call does not return.
#[verifier::external_body]
pub(crate) fn utc_now() -> (r: Timestamp)
    ensures
        r.nanos < 1_000_000_000,
{
    let now = chrono::Utc::now();
    Timestamp { seconds: now.timestamp(), nanos: now.timestamp_subsec_nanos() }
}

/// The text has the shape of a universally unique identifier: 36 characters, small hexadecimal
/// digits with hyphens at the four fixed places.
pub open spec fn is_uuid_text(s: Seq<char>) -> bool {
    &&& s.len() == 36
    &&& forall|i: int|
        0 <= i < 36 ==> if i == 8 || i == 13 || i == 18 || i == 23 {
            #[trigger] s[i] == '-'
        } else {
            ('0' <= s[i] && s[i] <= '9') || ('a' <= s[i] && s[i] <= 'f')
        }
}

/// Calls `uuid::Uuid::new_v4` and writes the identifier out. The text has 36 characters, small
/// hexadecimal digits with hyphens at the four fixed places. Which digits those are is left to
/// chance: that two calls give two identifiers is likely, and is not claimed.
#[verifier::external_body]
pub(crate) fn fresh_uuid() -> (r: String)
    ensures
        is_uuid_text(r@),
{
    uuid::Uuid::new_v4().to_string()
}

} // verus!
