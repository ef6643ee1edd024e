//! Turning listed object keys into a site's volumes in chronological order,
//! and the pagination decisions of a day's listing.

use vstd::prelude::*;
use crate::cache_keys::{parse_object_key, volume_of_key, DiscoveredVolume, DiscoveredVolumeView};
use crate::list_objects::{DiscoveryError, ListObjectsPage};
use crate::request_url::{list_objects_url, list_objects_url_of, opt_str_view};
use crate::text::{chars_of, eq_ignore_ascii_case, eq_ignore_ascii_case_spec, strings_view};

verus! {

/// The public Unidata NEXRAD Level II bucket on AWS S3.
pub const NEXRAD_LEVEL2_BUCKET_URL: &'static str = "https://unidata-nexrad-level2.s3.amazonaws.com";

/// The most pages one day's listing may take before discovery gives up.
pub const MAX_PAGES: u32 = 1000;

/// Lexicographic order of character sequences.
pub open spec fn seq_lt(a: Seq<char>, b: Seq<char>) -> bool
    decreases a.len(),
{
    if a.len() == 0 {
        b.len() > 0
    } else if b.len() == 0 {
        false
    } else if a[0] != b[0] {
        a[0] < b[0]
    } else {
        seq_lt(a.drop_first(), b.drop_first())
    }
}

pub proof fn lemma_seq_lt_irreflexive(a: Seq<char>)
    ensures
        !seq_lt(a, a),
    decreases a.len(),
{
    if a.len() > 0 {
        lemma_seq_lt_irreflexive(a.drop_first());
    }
}

pub proof fn lemma_seq_lt_transitive(a: Seq<char>, b: Seq<char>, c: Seq<char>)
    requires
        seq_lt(a, b),
        seq_lt(b, c),
    ensures
        seq_lt(a, c),
    decreases a.len(),
{
    if a.len() > 0 && b.len() > 0 && c.len() > 0 && a[0] == b[0] && b[0] == c[0] {
        lemma_seq_lt_transitive(a.drop_first(), b.drop_first(), c.drop_first());
    }
}

/// Chronological order of volumes: by start time, then by key.
pub open spec fn volume_lt(a: DiscoveredVolumeView, b: DiscoveredVolumeView) -> bool {
    a.start_millis < b.start_millis || (a.start_millis == b.start_millis && seq_lt(a.key, b.key))
}

pub proof fn lemma_volume_lt_transitive(a: DiscoveredVolumeView, b: DiscoveredVolumeView, c: DiscoveredVolumeView)
    requires
        volume_lt(a, b),
        volume_lt(b, c),
    ensures
        volume_lt(a, c),
{
    if a.start_millis == b.start_millis && b.start_millis == c.start_millis {
        lemma_seq_lt_transitive(a.key, b.key, c.key);
    }
}

pub proof fn lemma_volume_lt_irreflexive(a: DiscoveredVolumeView)
    ensures
        !volume_lt(a, a),
{
    lemma_seq_lt_irreflexive(a.key);
}

/// No volume comes before one listed ahead of it.
pub open spec fn volumes_sorted(s: Seq<DiscoveredVolumeView>) -> bool {
    forall|i: int, j: int| 0 <= i < j < s.len() ==> !volume_lt(#[trigger] s[j], #[trigger] s[i])
}

pub open spec fn volumes_view(v: Seq<DiscoveredVolume>) -> Seq<DiscoveredVolumeView> {
    v.map_values(|x: DiscoveredVolume| x@)
}

/// Whether `a` comes before `b` in the lexicographic order of characters.
pub fn str_lt(a: &str, b: &str) -> (r: bool)
    ensures
        r == seq_lt(a@, b@),
{
    let x = chars_of(a);
    let y = chars_of(b);
    let mut i: usize = 0;
    assert(a@.skip(0) =~= a@);
    assert(b@.skip(0) =~= b@);
    loop
        invariant
            x@ == a@,
            y@ == b@,
            i <= x@.len(),
            i <= y@.len(),
            seq_lt(a@, b@) == seq_lt(a@.skip(i as int), b@.skip(i as int)),
        decreases x@.len() - i,
    {
        let ghost sa = a@.skip(i as int);
        let ghost sb = b@.skip(i as int);
        if i == x.len() {
            return i < y.len();
        }
        if i == y.len() {
            return false;
        }
        assert(sa[0] == x@[i as int]);
        assert(sb[0] == y@[i as int]);
        if x[i] != y[i] {
            return x[i] < y[i];
        }
        assert(sa.drop_first() =~= a@.skip(i as int + 1));
        assert(sb.drop_first() =~= b@.skip(i as int + 1));
        i = i + 1;
    }
}

fn volume_before(a: &DiscoveredVolume, b: &DiscoveredVolume) -> (r: bool)
    ensures
        r == volume_lt(a@, b@),
{
    let ta = a.start_time.epoch_millis();
    let tb = b.start_time.epoch_millis();
    if ta != tb {
        ta < tb
    } else {
        str_lt(a.key.as_str(), b.key.as_str())
    }
}

/// Sort volumes chronologically (by start time, then key), keeping the
/// relative order of volumes that tie.
pub fn sort_volumes(v: Vec<DiscoveredVolume>) -> (r: Vec<DiscoveredVolume>)
    ensures
        volumes_sorted(volumes_view(r@)),
        volumes_view(r@).to_multiset() == volumes_view(v@).to_multiset(),
{
    broadcast use vstd::seq_lib::to_multiset_insert, vstd::seq_lib::to_multiset_remove,
        vstd::seq_lib::to_multiset_contains, vstd::multiset::group_multiset_axioms;

    let mut r: Vec<DiscoveredVolume> = Vec::new();
    let mut rest = v;
    assert(volumes_view(r@) =~= Seq::<DiscoveredVolumeView>::empty());
    while rest.len() > 0
        invariant
            volumes_sorted(volumes_view(r@)),
            volumes_view(r@).to_multiset().add(volumes_view(rest@).to_multiset()) == volumes_view(
                v@,
            ).to_multiset(),
        decreases rest.len(),
    {
        let ghost rv0 = volumes_view(rest@);
        let x = rest.remove(0);
        assert(volumes_view(rest@) =~= rv0.remove(0));
        assert(rv0[0] == x@);
        let n = r.len();
        let mut j: usize = 0;
        while j < n && !volume_before(&x, &r[j])
            invariant
                n == r@.len(),
                j <= n,
                forall|k: int| 0 <= k < j ==> !volume_lt(x@, #[trigger] volumes_view(r@)[k]),
            decreases n - j,
        {
            j = j + 1;
        }
        let ghost s = volumes_view(r@);
        r.insert(j, x);
        assert(volumes_view(r@) =~= s.insert(j as int, x@));
        proof {
            let t = volumes_view(r@);
            assert forall|a: int, b: int| 0 <= a < b < t.len() implies !volume_lt(#[trigger] t[b], #[trigger] t[a]) by {
                if a < j && b < j {
                    assert(t[a] == s[a] && t[b] == s[b]);
                } else if a < j && b == j {
                    assert(t[a] == s[a]);
                } else if a < j && b > j {
                    assert(t[a] == s[a] && t[b] == s[b - 1]);
                } else if a == j {
                    assert(t[b] == s[b - 1]);
                    assert(j < n);
                    assert(volume_lt(x@, s[j as int]));
                    if volume_lt(s[b - 1], x@) {
                        if b - 1 == j {
                            lemma_volume_lt_transitive(x@, s[j as int], x@);
                            lemma_volume_lt_irreflexive(x@);
                        } else {
                            lemma_volume_lt_transitive(s[b - 1], x@, s[j as int]);
                        }
                    }
                } else {
                    assert(t[a] == s[a - 1] && t[b] == s[b - 1]);
                }
            }
            assert(rv0.contains(x@));
            vstd::seq_lib::to_multiset_insert(s, j as int, x@);
            vstd::seq_lib::to_multiset_remove(rv0, 0);
            vstd::seq_lib::to_multiset_contains(rv0, x@);
            assert(rv0.to_multiset().count(x@) > 0);
            assert(volumes_view(r@).to_multiset().add(volumes_view(rest@).to_multiset()) =~= s.to_multiset().add(
                rv0.to_multiset(),
            ));
        }
    }
    assert(volumes_view(rest@) =~= Seq::<DiscoveredVolumeView>::empty());
    r
}

/// The volumes named by `keys` whose site is `icao` (ignoring ASCII case),
/// in key order.
pub open spec fn site_volumes(keys: Seq<Seq<char>>, icao: Seq<char>) -> Seq<DiscoveredVolumeView>
    decreases keys.len(),
{
    if keys.len() == 0 {
        Seq::empty()
    } else {
        site_volumes(keys.drop_last(), icao) + match volume_of_key(keys.last()) {
            Some(v) => if eq_ignore_ascii_case_spec(v.icao, icao) {
                seq![v]
            } else {
                Seq::empty()
            },
            None => Seq::empty(),
        }
    }
}

/// The volumes of site `icao` among the listed `keys`, in chronological
/// order; keys that are not volumes, or are another site's, are skipped.
pub fn volumes_from_keys(keys: &Vec<String>, icao: &str) -> (r: Vec<DiscoveredVolume>)
    ensures
        volumes_sorted(volumes_view(r@)),
        volumes_view(r@).to_multiset() == site_volumes(strings_view(keys@), icao@).to_multiset(),
{
    let ghost kv = strings_view(keys@);
    let mut found: Vec<DiscoveredVolume> = Vec::new();
    let n = keys.len();
    let mut i: usize = 0;
    assert(kv.take(0) =~= Seq::<Seq<char>>::empty());
    assert(volumes_view(found@) =~= Seq::<DiscoveredVolumeView>::empty());
    while i < n
        invariant
            n == keys@.len(),
            kv == strings_view(keys@),
            i <= n,
            volumes_view(found@) == site_volumes(kv.take(i as int), icao@),
        decreases n - i,
    {
        assert(kv.take(i as int + 1).drop_last() =~= kv.take(i as int));
        assert(kv.take(i as int + 1).last() == keys@[i as int]@);
        let ghost f0 = volumes_view(found@);
        match parse_object_key(keys[i].as_str()) {
            Some(v) => {
                if eq_ignore_ascii_case(v.icao.as_str(), icao) {
                    let ghost vv = v@;
                    found.push(v);
                    assert(volumes_view(found@) =~= f0.push(vv));
                    assert(volumes_view(found@) =~= site_volumes(kv.take(i as int + 1), icao@));
                } else {
                    assert(volumes_view(found@) =~= site_volumes(kv.take(i as int + 1), icao@));
                }
            },
            None => {
                assert(volumes_view(found@) =~= site_volumes(kv.take(i as int + 1), icao@));
            },
        }
        i = i + 1;
    }
    assert(kv.take(n as int) =~= kv);
    sort_volumes(found)
}

/// What discovery does after reading one page of a day's listing.
#[derive(Debug)]
pub enum DiscoveryStep {
    /// The listing is complete: the site's volumes, oldest first.
    Finished(Vec<DiscoveredVolume>),
    /// Request the next page with this continuation token.
    Continue(String),
    /// The listing cannot go on.
    Failed(DiscoveryError),
}

/// Record one page's keys in `all_keys` and decide what comes next: a
/// complete listing yields the site's volumes; a truncated one continues
/// with its continuation token, and fails without one.
pub fn discovery_step(all_keys: &mut Vec<String>, page: ListObjectsPage, icao: &str) -> (step: DiscoveryStep)
    ensures
        strings_view(final(all_keys)@) == strings_view(old(all_keys)@) + strings_view(page.keys@),
        !page.is_truncated ==> (step matches DiscoveryStep::Finished(vs) && volumes_sorted(volumes_view(vs@))
            && volumes_view(vs@).to_multiset() == site_volumes(strings_view(final(all_keys)@), icao@).to_multiset()),
        page.is_truncated ==> match page.next_continuation_token {
            Some(t) => step matches DiscoveryStep::Continue(t2) && t2@ == t@,
            None => step matches DiscoveryStep::Failed(DiscoveryError::MalformedXml(m))
                && m@ == "IsTruncated=true but no NextContinuationToken present"@,
        },
{
    let mut keys = page.keys;
    let ghost k0 = strings_view(all_keys@);
    let ghost pk = strings_view(keys@);
    all_keys.append(&mut keys);
    assert(strings_view(all_keys@) =~= k0 + pk);
    if !page.is_truncated {
        return DiscoveryStep::Finished(volumes_from_keys(all_keys, icao));
    }
    match page.next_continuation_token {
        Some(token) => DiscoveryStep::Continue(token),
        None => DiscoveryStep::Failed(
            DiscoveryError::MalformedXml(String::from_str("IsTruncated=true but no NextContinuationToken present")),
        ),
    }
}

/// The latest of a chronologically sorted list of volumes.
pub fn latest_volume(volumes: Vec<DiscoveredVolume>) -> (r: Option<DiscoveredVolume>)
    ensures
        volumes@.len() == 0 ==> r is None,
        volumes@.len() > 0 ==> (r matches Some(v) && v@ == volumes@.last()@),
{
    let mut volumes = volumes;
    volumes.pop()
}

/// In a sorted list no volume comes after the last one.
pub proof fn lemma_last_is_latest(s: Seq<DiscoveredVolumeView>)
    requires
        volumes_sorted(s),
        s.len() > 0,
    ensures
        forall|i: int| 0 <= i < s.len() ==> !volume_lt(s.last(), #[trigger] s[i]),
{
    assert forall|i: int| 0 <= i < s.len() implies !volume_lt(s.last(), #[trigger] s[i]) by {
        if i < s.len() - 1 {
            assert(!volume_lt(s[s.len() - 1], s[i]));
        } else {
            lemma_volume_lt_irreflexive(s[i]);
        }
    }
}

/// The `ListObjectsV2` URL for one page of the listing under `prefix`,
/// as text: `bucket_url` with `list-type=2`, `prefix` and, when given, the
/// continuation token appended to its query. Fails exactly when
/// `bucket_url` does not parse, with `InvalidBucketUrl` carrying the URL and
/// the parser's message.
pub fn build_list_url(bucket_url: &str, prefix: &str, continuation_token: Option<&str>) -> (r: Result<
    String,
    DiscoveryError,
>)
    ensures
        match r {
            Ok(t) => list_objects_url_of(bucket_url@, prefix@, opt_str_view(continuation_token)) == Ok::<
                Seq<char>,
                Seq<char>,
            >(t@),
            Err(e) => e matches DiscoveryError::InvalidBucketUrl { url, message } && url@ == bucket_url@
                && list_objects_url_of(bucket_url@, prefix@, opt_str_view(continuation_token)) == Err::<
                Seq<char>,
                Seq<char>,
            >(message@),
        },
{
    match list_objects_url(bucket_url, prefix, continuation_token) {
        Ok(url) => Ok(url),
        Err(message) => Err(DiscoveryError::InvalidBucketUrl { url: String::from_str(bucket_url), message }),
    }
}

} // verus!
