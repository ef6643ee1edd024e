//! The decisions of the HRRR bucket client: how an HTTP status is reported,
//! how a byte range is requested, when a listing is complete, whether a
//! listed object exists, how often an existence check is retried, and which
//! model runs the search for the latest published run visits.

use vstd::prelude::*;
use crate::calendar::{epoch_day_of, is_valid_civil_date, previous_day};
use crate::cache_keys::system_clock_millis;
use crate::hrrr_error::HrrrError;
use crate::hrrr_keys::RunReference;
use crate::list_objects::ListObjectsPage;
use crate::request_url::{list_objects_url, list_objects_url_of, opt_str_view};
use crate::text::{decimal, push_decimal, str_eq, strings_view};

verus! {

/// The report of HTTP status `status` for `url`: success (2xx) is no
/// error, 404 is `NotFound`, anything else `HttpStatus`.
pub fn classify_status(url: &str, status: u16) -> (r: Result<(), HrrrError>)
    ensures
        200 <= status <= 299 ==> r is Ok,
        status == 404 ==> (r matches Err(HrrrError::NotFound { url: u, status: s }) && u@ == url@ && s == status),
        !(200 <= status <= 299) && status != 404 ==> (r matches Err(HrrrError::HttpStatus { url: u, status: s })
            && u@ == url@ && s == status),
{
    if 200 <= status && status <= 299 {
        return Ok(());
    }
    if status == 404 {
        return Err(HrrrError::NotFound { url: String::from_str(url), status });
    }
    Err(HrrrError::HttpStatus { url: String::from_str(url), status })
}

/// The `Range` header value requesting the half-open byte range
/// `[start, end)`: `bytes=start-(end-1)`, the last byte saturating at 0.
pub fn range_header_value(start: u64, end: u64) -> (v: String)
    ensures
        v@ == "bytes="@ + decimal(start as nat) + "-"@ + decimal(if end > 0 { (end - 1) as nat } else { 0 }),
{
    let mut v = String::from_str("bytes=");
    push_decimal(&mut v, start);
    v.append("-");
    push_decimal(&mut v, if end > 0 { end - 1 } else { 0 });
    proof {
        reveal_strlit("bytes=");
        reveal_strlit("-");
    }
    v
}

/// Whether a listing names exactly `key`.
pub fn listing_contains(keys: &Vec<String>, key: &str) -> (r: bool)
    ensures
        r == strings_view(keys@).contains(key@),
{
    let n = keys.len();
    let mut i: usize = 0;
    while i < n
        invariant
            n == keys@.len(),
            i <= n,
            forall|j: int| 0 <= j < i ==> keys@[j]@ != key@,
        decreases n - i,
    {
        if str_eq(keys[i].as_str(), key) {
            assert(strings_view(keys@)[i as int] == key@);
            return true;
        }
        i = i + 1;
    }
    assert forall|j: int| 0 <= j < strings_view(keys@).len() implies strings_view(keys@)[j] != key@ by {
        assert(strings_view(keys@)[j] == keys@[j]@);
    }
    false
}

/// Record one listing page's keys and return the continuation token of the
/// next page, or nothing once the listing is complete (not truncated, or
/// truncated without a token).
pub fn listing_step(all_keys: &mut Vec<String>, page: ListObjectsPage) -> (next: Option<String>)
    ensures
        strings_view(final(all_keys)@) == strings_view(old(all_keys)@) + strings_view(page.keys@),
        !page.is_truncated ==> next is None,
        page.is_truncated ==> match page.next_continuation_token {
            Some(t) => next matches Some(n) && n@ == t@,
            None => next is None,
        },
{
    let mut keys = page.keys;
    let ghost k0 = strings_view(all_keys@);
    let ghost pk = strings_view(keys@);
    all_keys.append(&mut keys);
    assert(strings_view(all_keys@) =~= k0 + pk);
    if !page.is_truncated {
        return None;
    }
    page.next_continuation_token
}

/// Attempts of one existence check before its last error is reported.
pub const EXISTENCE_CHECK_ATTEMPTS: u32 = 3;

/// Pause between two attempts of an existence check.
pub const EXISTENCE_RETRY_DELAY_MS: u64 = 300;

/// What to do after attempt number `attempt` (1-based) of an existence
/// check ended with `failed`.
#[derive(Debug, Clone, Copy, PartialEq, Eq)]
pub enum ExistenceDecision {
    /// The check answered (present or absent); report it.
    Answered,
    /// Wait this many milliseconds, then try again.
    RetryAfter(u64),
    /// Report this attempt's error.
    GiveUp,
}

/// An answer ends the check; an error is retried after a pause until the
/// last allowed attempt, whose error is reported.
pub fn existence_decision(attempt: u32, failed: bool) -> (d: ExistenceDecision)
    ensures
        !failed ==> d == ExistenceDecision::Answered,
        failed && attempt < EXISTENCE_CHECK_ATTEMPTS ==> d == ExistenceDecision::RetryAfter(EXISTENCE_RETRY_DELAY_MS),
        failed && attempt >= EXISTENCE_CHECK_ATTEMPTS ==> d == ExistenceDecision::GiveUp,
{
    if !failed {
        ExistenceDecision::Answered
    } else if attempt < EXISTENCE_CHECK_ATTEMPTS {
        ExistenceDecision::RetryAfter(EXISTENCE_RETRY_DELAY_MS)
    } else {
        ExistenceDecision::GiveUp
    }
}

/// The UTC hour (`0..=23`) of the instant `millis` after the epoch.
pub open spec fn utc_hour_of(millis: int) -> int {
    (millis / 3_600_000) % 24
}

/// The UTC hour of a clock reading of `millis` milliseconds after the epoch.
pub fn utc_hour_of_millis(millis: u128) -> (h: u8)
    ensures
        h as int == utc_hour_of(millis as int),
        h < 24,
{
    ((millis / 3_600_000) % 24) as u8
}

/// The current UTC hour, per the system clock: [`utc_hour_of_millis`] of
/// the clock's reading. Which hour that is depends on the time of the call.
pub fn current_utc_hour() -> (h: u8)
    ensures
        h < 24,
{
    let millis = system_clock_millis();
    utc_hour_of_millis(millis)
}

/// The run one hour before `run` (the previous day's 23Z before 00Z).
pub fn previous_run(run: RunReference) -> (p: RunReference)
    requires
        is_valid_civil_date(run.year as int, run.month as int, run.day as int),
        run.run_hour <= 23,
        !(run.year == 0 && run.month == 1 && run.day == 1 && run.run_hour == 0),
    ensures
        run.run_hour > 0 ==> p == (RunReference { run_hour: (run.run_hour - 1) as u8, ..run }),
        run.run_hour == 0 ==> p.run_hour == 23 && is_valid_civil_date(p.year as int, p.month as int, p.day as int)
            && epoch_day_of(p.year as int, p.month as int, p.day as int) == epoch_day_of(
                run.year as int,
                run.month as int,
                run.day as int,
            ) - 1,
{
    if run.run_hour > 0 {
        RunReference { run_hour: run.run_hour - 1, ..run }
    } else {
        let (y, m, d) = previous_day(run.year as i64, run.month as u32, run.day as u32);
        RunReference { year: y as u16, month: m as u8, day: d as u8, run_hour: 23 }
    }
}

/// The `ListObjectsV2` URL for one page of the listing under `prefix`,
/// as text: `bucket_url` with `list-type=2`, `prefix` and, when given, the
/// continuation token appended to its query. Fails exactly when
/// `bucket_url` does not parse, with `InvalidBucketUrl` carrying the URL and
/// the parser's message.
pub fn build_list_url(bucket_url: &str, prefix: &str, continuation_token: Option<&str>) -> (r: Result<
    String,
    HrrrError,
>)
    ensures
        match r {
            Ok(t) => list_objects_url_of(bucket_url@, prefix@, opt_str_view(continuation_token)) == Ok::<
                Seq<char>,
                Seq<char>,
            >(t@),
            Err(e) => e matches HrrrError::InvalidBucketUrl { url, message } && url@ == bucket_url@
                && list_objects_url_of(bucket_url@, prefix@, opt_str_view(continuation_token)) == Err::<
                Seq<char>,
                Seq<char>,
            >(message@),
        },
{
    match list_objects_url(bucket_url, prefix, continuation_token) {
        Ok(url) => Ok(url),
        Err(message) => Err(HrrrError::InvalidBucketUrl { url: String::from_str(bucket_url), message }),
    }
}

} // verus!
