//! The current time.
use vstd::prelude::*;

verus! {

/// Whether a text tells a time in RFC 3339 form with milliseconds, as in
/// `2024-01-31T12:30:45.678Z`; a sign or more digits may stand before the last four digits
/// of the year.
pub open spec fn is_timestamp(s: Seq<char>) -> bool {
    let tail = s.skip(s.len() - 24);
    &&& s.len() >= 24
    &&& forall|i: int|
        0 <= i < 24 ==> if i == 4 || i == 7 {
            #[trigger] tail[i] == '-'
        } else if i == 10 {
            tail[i] == 'T'
        } else if i == 13 || i == 16 {
            tail[i] == ':'
        } else if i == 19 {
            tail[i] == '.'
        } else if i == 23 {
            tail[i] == 'Z'
        } else {
            '0' <= tail[i] <= '9'
        }
}

/// `Utc::now` reads the machine's clock, and `DateTime::to_rfc3339_opts` writes that time in
/// RFC 3339 form with milliseconds and a `Z`. Nothing is known of the time beforehand.
#[verifier::external_body]
pub(crate) fn now_timestamp() -> (r: String)
    ensures
        is_timestamp(r@),
{
    chrono::Utc::now().to_rfc3339_opts(chrono::SecondsFormat::Millis, true)
}

/// `Utc::now` reads the machine's clock, here in milliseconds since the Unix epoch.
/// Nothing is known of it beforehand.
#[verifier::external_body]
pub(crate) fn now_millis() -> (r: i64) {
    chrono::Utc::now().timestamp_millis()
}

/// The time that `std::time::SystemTime::now` tells, in whole seconds since the start of
/// 1970; 0 for a time before. Nothing is claimed of it.
#[verifier::external_body]
pub(crate) fn now_seconds() -> (r: u64) {
    std::time::SystemTime::now()
        .duration_since(std::time::UNIX_EPOCH)
        .unwrap_or_default()
        .as_secs()
}

/// The time that `std::time::SystemTime::now` tells, in nanoseconds since the start of
/// 1970, in 64 bits; 0 for a time before. Nothing is claimed of it.
#[verifier::external_body]
pub(crate) fn now_nanos() -> (r: u64) {
    std::time::SystemTime::now()
        .duration_since(std::time::UNIX_EPOCH)
        .unwrap_or_default()
        .as_nanos() as u64
}

/// `Utc::now` reads the machine's clock, here in nanoseconds since the start of 1970; 0
/// for a time that does not fit. Nothing is known of it beforehand.
#[verifier::external_body]
pub(crate) fn now_date_nanos() -> (r: i64) {
    chrono::Utc::now().timestamp_nanos_opt().unwrap_or_default()
}

} // verus!
