//! The on-disk cache's record of one volume, what a download reports, and
//! what one poll of the background update loop reports.

use vstd::prelude::*;
use crate::radar_types::Timestamp;
use crate::list_objects::DiscoveryError;
use crate::net::FetchError;
use crate::hrrr_keys::object_url;
use crate::request_url::{parse_url, url_parse};
use crate::text::trim_end_char;
use crate::discovery::{lemma_seq_lt_irreflexive, lemma_seq_lt_transitive, seq_lt, str_lt};

verus! {

/// `std::path::PathBuf`, carried opaquely.
#[verifier::external_type_specification]
#[verifier::external_body]
pub struct ExPathBuf(std::path::PathBuf);

/// `PathBuf`'s `Clone`, used by the derived `Clone` of [`CachedVolume`].
/// Nothing is claimed of the copy: the path stays opaque here.
pub assume_specification[ <std::path::PathBuf as Clone>::clone ](p: &std::path::PathBuf) -> std::path::PathBuf;

/// One volume as recorded in the on-disk cache.
#[derive(Debug, Clone, PartialEq)]
pub struct CachedVolume {
    pub icao: String,
    pub key: String,
    pub start_time: Timestamp,
    pub format_version: u8,
    pub file_path: std::path::PathBuf,
    pub size_bytes: u64,
}

/// Whether a download fetched and verified the volume, or found it cached
/// already; both carry the same record.
#[derive(Debug, Clone, PartialEq)]
pub enum DownloadOutcome {
    Downloaded(CachedVolume),
    AlreadyCached(CachedVolume),
}

/// The record either outcome carries.
pub open spec fn outcome_volume(o: DownloadOutcome) -> CachedVolume {
    match o {
        DownloadOutcome::Downloaded(c) => c,
        DownloadOutcome::AlreadyCached(c) => c,
    }
}

impl DownloadOutcome {
    pub fn into_cached_volume(self) -> (c: CachedVolume)
        ensures
            c == outcome_volume(self),
    {
        match self {
            DownloadOutcome::Downloaded(c) => c,
            DownloadOutcome::AlreadyCached(c) => c,
        }
    }

    pub fn cached_volume(&self) -> (c: &CachedVolume)
        ensures
            *c == outcome_volume(*self),
    {
        match self {
            DownloadOutcome::Downloaded(c) => c,
            DownloadOutcome::AlreadyCached(c) => c,
        }
    }
}

/// What happened on one poll of the background update loop.
#[derive(Debug)]
pub enum UpdateEvent {
    /// A new volume was found, downloaded, and cached.
    Downloaded(CachedVolume),
    /// The latest available volume was already cached.
    AlreadyCached { icao: String, key: String },
    /// No volumes are available yet for the site's current UTC day.
    NoneAvailable { icao: String },
    /// Discovery or download failed this poll; the loop keeps running.
    Error(String),
}

/// The event a poll reports once the latest volume of site `icao` has been
/// downloaded or found cached.
pub fn event_for_download(icao: &str, outcome: DownloadOutcome) -> (e: UpdateEvent)
    ensures
        match outcome {
            DownloadOutcome::Downloaded(c) => e == UpdateEvent::Downloaded(c),
            DownloadOutcome::AlreadyCached(c) => e matches UpdateEvent::AlreadyCached { icao: i, key: k }
                && i@ == icao@ && k@ == c.key@,
        },
{
    match outcome {
        DownloadOutcome::Downloaded(cached) => UpdateEvent::Downloaded(cached),
        DownloadOutcome::AlreadyCached(cached) => UpdateEvent::AlreadyCached {
            icao: String::from_str(icao),
            key: cached.key,
        },
    }
}

/// The event a poll reports when site `icao` has no volume yet today.
pub fn event_for_no_volume(icao: &str) -> (e: UpdateEvent)
    ensures
        e matches UpdateEvent::NoneAvailable { icao: i } && i@ == icao@,
{
    UpdateEvent::NoneAvailable { icao: String::from_str(icao) }
}


/// `a` is older than `b`: an earlier start time, or the same start time and
/// an earlier key.
pub open spec fn older(a: CachedVolume, b: CachedVolume) -> bool {
    a.start_time@ < b.start_time@ || (a.start_time@ == b.start_time@ && seq_lt(a.key@, b.key@))
}

/// Newest first: no volume is newer than one listed ahead of it.
pub open spec fn newest_first(s: Seq<CachedVolume>) -> bool {
    forall|i: int, j: int| 0 <= i < j < s.len() ==> !older(#[trigger] s[i], #[trigger] s[j])
}

proof fn lemma_older_transitive(a: CachedVolume, b: CachedVolume, c: CachedVolume)
    requires
        older(a, b),
        older(b, c),
    ensures
        older(a, c),
{
    if a.start_time@ == b.start_time@ && b.start_time@ == c.start_time@ {
        lemma_seq_lt_transitive(a.key@, b.key@, c.key@);
    }
}

fn is_older(a: &CachedVolume, b: &CachedVolume) -> (r: bool)
    ensures
        r == older(*a, *b),
{
    let ta = a.start_time.epoch_millis();
    let tb = b.start_time.epoch_millis();
    if ta != tb {
        ta < tb
    } else {
        str_lt(a.key.as_str(), b.key.as_str())
    }
}

/// Order cached volumes newest first (by start time, then key, both
/// descending), keeping the relative order of volumes that tie.
pub fn sort_newest_first(v: Vec<CachedVolume>) -> (r: Vec<CachedVolume>)
    ensures
        newest_first(r@),
        r@.to_multiset() == v@.to_multiset(),
{
    broadcast use vstd::seq_lib::to_multiset_insert, vstd::seq_lib::to_multiset_remove,
        vstd::seq_lib::to_multiset_contains, vstd::multiset::group_multiset_axioms;

    let mut r: Vec<CachedVolume> = Vec::new();
    let mut rest = v;
    assert(r@ =~= Seq::<CachedVolume>::empty());
    while rest.len() > 0
        invariant
            newest_first(r@),
            r@.to_multiset().add(rest@.to_multiset()) == v@.to_multiset(),
        decreases rest.len(),
    {
        let ghost rv0 = rest@;
        let x = rest.remove(0);
        let n = r.len();
        let mut j: usize = 0;
        while j < n && !is_older(&r[j], &x)
            invariant
                n == r@.len(),
                j <= n,
                forall|k: int| 0 <= k < j ==> !older(#[trigger] r@[k], x),
            decreases n - j,
        {
            j = j + 1;
        }
        let ghost s = r@;
        r.insert(j, x);
        proof {
            let t = r@;
            assert forall|a: int, b: int| 0 <= a < b < t.len() implies !older(#[trigger] t[a], #[trigger] t[b]) by {
                if a < j && b < j {
                } else if a < j && b == j {
                } else if a < j && b > j {
                    assert(t[b] == s[b - 1]);
                } else if a == j {
                    assert(t[b] == s[b - 1]);
                    assert(older(s[j as int], x));
                    if older(x, s[b - 1]) {
                        if b - 1 == j {
                            lemma_older_transitive(x, s[j as int], x);
                            lemma_seq_lt_irreflexive(x.key@);
                        } else {
                            lemma_older_transitive(s[j as int], x, s[b - 1]);
                        }
                    }
                } else {
                    assert(t[a] == s[a - 1] && t[b] == s[b - 1]);
                }
            }
            vstd::seq_lib::to_multiset_insert(s, j as int, x);
            vstd::seq_lib::to_multiset_remove(rv0, 0);
            vstd::seq_lib::to_multiset_contains(rv0, x);
            assert(rv0.contains(x));
            assert(r@.to_multiset().add(rest@.to_multiset()) =~= s.to_multiset().add(rv0.to_multiset()));
        }
    }
    assert(rest@ =~= Seq::<CachedVolume>::empty());
    r
}


/// Errors from downloading, verifying and caching one volume. Failures of
/// the network, file and decoding libraries are carried as their rendered
/// messages.
#[derive(Debug, Clone, PartialEq, Eq)]
pub enum CacheError {
    Cancelled,
    NotFound { key: String },
    DownloadRequestFailed { key: String, attempts: u32, message: String },
    DownloadHttpStatus { key: String, status: u16, attempts: u32 },
    VerificationFailed { key: String, attempts: u32, message: String },
    InvalidUrl { key: String, message: String },
    Io(String),
    Metadata(String),
    Discovery(DiscoveryError),
}

/// The cache error a failed download of object `key` becomes: HTTP 404 is
/// `NotFound`, any other status `DownloadHttpStatus`.
pub fn map_fetch_error(e: FetchError, key: &str) -> (c: CacheError)
    ensures
        match e {
            FetchError::Cancelled => c == CacheError::Cancelled,
            FetchError::Request { attempts, message } => c matches CacheError::DownloadRequestFailed {
                key: k,
                attempts: a,
                message: m,
            } && k@ == key@ && a == attempts && m == message,
            FetchError::Status { status, attempts, .. } => if status == 404 {
                c matches CacheError::NotFound { key: k } && k@ == key@
            } else {
                c matches CacheError::DownloadHttpStatus { key: k, status: s, attempts: a } && k@ == key@ && s
                    == status && a == attempts
            },
        },
{
    match e {
        FetchError::Cancelled => CacheError::Cancelled,
        FetchError::Request { attempts, message } => CacheError::DownloadRequestFailed {
            key: String::from_str(key),
            attempts,
            message,
        },
        FetchError::Status { status, attempts, .. } => {
            if status == 404 {
                CacheError::NotFound { key: String::from_str(key) }
            } else {
                CacheError::DownloadHttpStatus { key: String::from_str(key), status, attempts }
            }
        },
    }
}


/// Full download-and-verify attempts of one volume: one more after a
/// verification failure, in case the bytes were damaged in transit.
pub const MAX_VERIFY_ATTEMPTS: u32 = 2;

/// Pause before a verification-triggered download, in milliseconds.
pub const VERIFY_RETRY_PAUSE_MS: u64 = 1000;

/// What to do after download attempt number `attempt` (1-based) of a volume.
#[derive(Debug, Clone, Copy, PartialEq, Eq)]
pub enum VerifyDecision {
    /// The bytes decode: cache them.
    Accept,
    /// Pause this many milliseconds, then download again.
    RetryAfter(u64),
    /// Report the verification failure after this many attempts.
    Fail { attempts: u32 },
}

/// Bytes that decode are accepted; a decode failure is retried after a
/// pause until the last allowed attempt, which fails.
pub fn verify_decision(attempt: u32, decoded: bool) -> (d: VerifyDecision)
    ensures
        decoded ==> d == VerifyDecision::Accept,
        !decoded && attempt < MAX_VERIFY_ATTEMPTS ==> d == VerifyDecision::RetryAfter(VERIFY_RETRY_PAUSE_MS),
        !decoded && attempt >= MAX_VERIFY_ATTEMPTS ==> d == (VerifyDecision::Fail { attempts: MAX_VERIFY_ATTEMPTS }),
{
    if decoded {
        VerifyDecision::Accept
    } else if attempt < MAX_VERIFY_ATTEMPTS {
        VerifyDecision::RetryAfter(VERIFY_RETRY_PAUSE_MS)
    } else {
        VerifyDecision::Fail { attempts: MAX_VERIFY_ATTEMPTS }
    }
}

/// The URL of object `key` in the bucket at `bucket_url`, as the URL
/// parser serializes it: the text is any trailing `/` of the bucket URL
/// dropped, then `/` and the key. Fails exactly when that text does not
/// parse, with `InvalidUrl` carrying the key and the parser's message.
pub fn build_object_url(bucket_url: &str, key: &str) -> (r: Result<String, CacheError>)
    ensures
        ({
            let full = trim_end_char(bucket_url@, '/') + "/"@ + key@;
            match r {
                Ok(t) => url_parse(full) == Ok::<Seq<char>, Seq<char>>(t@),
                Err(e) => e matches CacheError::InvalidUrl { key: k, message } && k@ == key@
                    && url_parse(full) == Err::<Seq<char>, Seq<char>>(message@),
            }
        }),
{
    let full = object_url(bucket_url, key);
    match parse_url(full.as_str()) {
        Ok(url) => Ok(url),
        Err(message) => Err(CacheError::InvalidUrl { key: String::from_str(key), message }),
    }
}

} // verus!
