use vstd::prelude::*;
use crate::models::ValidityStatus;

verus! {

/// Seconds in one day.
pub const SECONDS_PER_DAY: i64 = 86400;

/// The largest number of whole days left at which a certificate counts as
/// expiring soon.
pub const EXPIRING_SOON_DAYS: i64 = 30;

/// The instant, in seconds since the Unix epoch, that chrono reads from text
/// in the form `YYYY-MM-DD HH:MM:SS` taken as UTC; `None` where it refuses it.
pub uninterp spec fn utc_timestamp_of(s: Seq<char>) -> Option<i64>;

/// The instant, in seconds since the Unix epoch, that chrono reads from an
/// RFC 2822 date; `None` where it refuses it.
pub uninterp spec fn rfc2822_timestamp_of(s: Seq<char>) -> Option<i64>;

/// Relies on `chrono::NaiveDateTime::parse_from_str` with the format
/// `%Y-%m-%d %H:%M:%S`, read as UTC by `and_utc().timestamp()`.
#[verifier::external_body]
fn parse_utc_timestamp(s: &str) -> (r: Option<i64>)
    ensures
        r == utc_timestamp_of(s@),
{
    match chrono::NaiveDateTime::parse_from_str(s, "%Y-%m-%d %H:%M:%S") {
        Ok(d) => Some(d.and_utc().timestamp()),
        Err(_) => None,
    }
}

/// Relies on `chrono::DateTime::parse_from_rfc2822`, turned into seconds
/// since the epoch by `timestamp()`.
#[verifier::external_body]
fn parse_rfc2822_timestamp(s: &str) -> (r: Option<i64>)
    ensures
        r == rfc2822_timestamp_of(s@),
{
    match chrono::DateTime::parse_from_rfc2822(s) {
        Ok(d) => Some(d.timestamp()),
        Err(_) => None,
    }
}

/// Relies on `chrono::Utc::now`: the current time in seconds since the epoch.
/// Nothing is known of the value.
#[verifier::external_body]
pub(crate) fn current_timestamp() -> (r: i64) {
    chrono::Utc::now().timestamp()
}

/// The expiry instant read from a `notAfter` text: first in the decoder's
/// own form, then as RFC 2822.
pub open spec fn expiry_of(not_after: Seq<char>) -> Option<i64> {
    match utc_timestamp_of(not_after) {
        Some(t) => Some(t),
        None => rfc2822_timestamp_of(not_after),
    }
}

/// Whole days from `now` until `expiry`, for an expiry not in the past.
pub open spec fn days_remaining(expiry: i64, now: i64) -> int {
    (expiry - now) / (SECONDS_PER_DAY as int)
}

/// The validity class of a certificate whose expiry is `expiry`, seen at
/// `now`: expired strictly before now, expiring soon with zero to thirty
/// whole days left, valid otherwise, and valid when no expiry could be read.
pub open spec fn validity_at(expiry: Option<i64>, now: i64) -> ValidityStatus {
    match expiry {
        None => ValidityStatus::Valid,
        Some(t) => if t < now {
            ValidityStatus::Expired
        } else if days_remaining(t, now) <= EXPIRING_SOON_DAYS {
            ValidityStatus::ExpiringSoon
        } else {
            ValidityStatus::Valid
        },
    }
}

/// Reads the expiry instant from a `notAfter` text.
pub fn expiry_timestamp(not_after: &str) -> (r: Option<i64>)
    ensures
        r == expiry_of(not_after@),
{
    match parse_utc_timestamp(not_after) {
        Some(t) => Some(t),
        None => parse_rfc2822_timestamp(not_after),
    }
}

/// Classifies an expiry instant against the instant `now`.
pub fn classify_expiry(expiry: Option<i64>, now: i64) -> (r: ValidityStatus)
    ensures
        r == validity_at(expiry, now),
        r == ValidityStatus::Expired <==> (expiry is Some && expiry->0 < now),
        r == ValidityStatus::ExpiringSoon <==> (expiry is Some && now <= expiry->0
            && days_remaining(expiry->0, now) <= EXPIRING_SOON_DAYS),
        expiry is None ==> r == ValidityStatus::Valid,
{
    match expiry {
        None => ValidityStatus::Valid,
        Some(t) => {
            if t < now {
                ValidityStatus::Expired
            } else {
                let remaining: i128 = (t as i128) - (now as i128);
                let days: i128 = remaining / (SECONDS_PER_DAY as i128);
                if days <= EXPIRING_SOON_DAYS as i128 {
                    ValidityStatus::ExpiringSoon
                } else {
                    ValidityStatus::Valid
                }
            }
        },
    }
}

impl ValidityStatus {
    /// The validity class of a certificate with this `notAfter` text, seen
    /// at the instant `now` (seconds since the epoch).
    pub fn from_dates_at(not_after: &str, now: i64) -> (r: ValidityStatus)
        ensures
            r == validity_at(expiry_of(not_after@), now),
    {
        let expiry = expiry_timestamp(not_after);
        classify_expiry(expiry, now)
    }

    /// The validity class of a certificate with this `notAfter` text, seen
    /// at the current time. An unreadable text gives `Valid`.
    pub fn from_dates(not_after: &str) -> (r: ValidityStatus)
        ensures
            exists|now: i64| r == validity_at(expiry_of(not_after@), now),
            expiry_of(not_after@) is None ==> r == ValidityStatus::Valid,
    {
        let now = current_timestamp();
        let r = Self::from_dates_at(not_after, now);
        assert(r == validity_at(expiry_of(not_after@), now));
        r
    }
}

} // verus!
