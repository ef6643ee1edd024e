//! S3 object keys of NEXRAD Level II volumes, and UTC calendar dates for
//! discovery. Keys look like
//! `{year}/{month:02}/{day:02}/{ICAO}/{ICAO}{yyyyMMdd}_{HHmmss}_V0{2-7}`;
//! anything else (including `_MDM` companions) is not a volume.

use vstd::prelude::*;
use crate::calendar::{days_from_civil, epoch_day_of, is_valid_civil_date};
use crate::radar_types::{is_civil_breakdown, Timestamp, MILLIS_PER_DAY};
use crate::text::{
    after_last, all_ascii_digits, all_digits_in, chars_of, digits_value, digits_value_of,
    lemma_digits_sub_run, push_signed_zero_padded, push_zero_padded, signed_zero_padded,
    str_after_last, zero_padded, digit_char, is_ascii_digit, last_index_of, lemma_digit_char_value,
    lemma_zero_padded_four, lemma_zero_padded_two,
};

verus! {

/// One discovered Level II volume-scan object. The field order (start time,
/// then key) is the chronological order in which volumes sort.
#[derive(Debug, Clone, PartialEq, Eq, PartialOrd, Ord)]
pub struct DiscoveredVolume {
    /// Volume start time (UTC), from the key's timestamp component.
    pub start_time: Timestamp,
    /// The full S3 object key.
    pub key: String,
    /// Four-letter ICAO site identifier, from the key itself.
    pub icao: String,
    /// Archive II format version from the key's `_V0N` suffix (2-7).
    pub format_version: u8,
}

/// The content of a [`DiscoveredVolume`].
pub ghost struct DiscoveredVolumeView {
    pub icao: Seq<char>,
    pub key: Seq<char>,
    pub format_version: u8,
    pub start_millis: int,
}

impl View for DiscoveredVolume {
    type V = DiscoveredVolumeView;

    open spec fn view(&self) -> DiscoveredVolumeView {
        DiscoveredVolumeView {
            icao: self.icao@,
            key: self.key@,
            format_version: self.format_version,
            start_millis: self.start_time@,
        }
    }
}

/// The file name `f` (the key's last path segment) has the exact volume shape.
pub open spec fn is_volume_file_name(f: Seq<char>) -> bool {
    &&& vstd::utf8::is_ascii_chars(f)
    &&& f.len() == 23
    &&& forall|i: int| 0 <= i < 4 ==> 'A' <= #[trigger] f[i] <= 'Z'
    &&& f[12] == '_'
    &&& f[19] == '_'
    &&& all_ascii_digits(f.subrange(4, 12))
    &&& all_ascii_digits(f.subrange(13, 19))
    &&& f[20] == 'V'
    &&& f[21] == '0'
    &&& '2' <= f[22] <= '7'
    &&& 1 <= digits_value(f.subrange(8, 10)) <= 12
    &&& 1 <= digits_value(f.subrange(10, 12)) <= 31
    &&& digits_value(f.subrange(13, 15)) <= 23
    &&& digits_value(f.subrange(15, 17)) <= 59
    &&& digits_value(f.subrange(17, 19)) <= 60
}

/// Milliseconds since the epoch of the timestamp named by a volume file name.
pub open spec fn volume_start_millis(f: Seq<char>) -> int {
    epoch_day_of(
        digits_value(f.subrange(4, 8)) as int,
        digits_value(f.subrange(8, 10)) as int,
        digits_value(f.subrange(10, 12)) as int,
    ) * MILLIS_PER_DAY + digits_value(f.subrange(13, 15)) * 3_600_000 + digits_value(
        f.subrange(15, 17),
    ) * 60_000 + digits_value(f.subrange(17, 19)) * 1_000
}

/// What a key names: a volume, or nothing recognized.
pub open spec fn volume_of_key(key: Seq<char>) -> Option<DiscoveredVolumeView> {
    let f = after_last(key, '/');
    if is_volume_file_name(f) {
        Some(
            DiscoveredVolumeView {
                icao: f.subrange(0, 4),
                key,
                format_version: (f[22] as int - 48) as u8,
                start_millis: volume_start_millis(f),
            },
        )
    } else {
        None
    }
}

impl DiscoveredVolume {
    /// The key's final path segment (the bare file name).
    pub fn file_name(&self) -> (name: &str)
        ensures
            name@ == after_last(self.key@, '/'),
    {
        str_after_last(self.key.as_str(), '/')
    }
}

proof fn lemma_epoch_day_small_years(y: int, m: int, d: int)
    requires
        0 <= y <= 9999,
        1 <= m <= 12,
        1 <= d <= 31,
    ensures
        -800_000 <= epoch_day_of(y, m, d) <= 3_000_000,
{
}

/// The last `c` of `s + t`, when `t` has none, is the last `c` of `s`.
proof fn lemma_last_index_of_append(s: Seq<char>, t: Seq<char>, c: char)
    requires
        forall|i: int| 0 <= i < t.len() ==> t[i] != c,
    ensures
        last_index_of(s + t, c) == last_index_of(s, c),
    decreases t.len(),
{
    if t.len() == 0 {
        assert(s + t =~= s);
    } else {
        assert((s + t).drop_last() =~= s + t.drop_last());
        assert((s + t).last() == t.last());
        lemma_last_index_of_append(s, t.drop_last(), c);
    }
}

/// A volume file name assembled from its fields, with each field at its
/// fixed position.
proof fn lemma_file_name_parts(
    icao: Seq<char>,
    y: Seq<char>,
    mo: Seq<char>,
    d: Seq<char>,
    h: Seq<char>,
    mi: Seq<char>,
    sec: Seq<char>,
    vc: char,
)
    requires
        icao.len() == 4,
        y.len() == 4,
        mo.len() == 2,
        d.len() == 2,
        h.len() == 2,
        mi.len() == 2,
        sec.len() == 2,
    ensures
        ({
            let f = icao + y + mo + d + seq!['_'] + h + mi + sec + seq!['_', 'V', '0', vc];
            &&& f.len() == 23
            &&& f.subrange(0, 4) == icao
            &&& f.subrange(4, 8) == y
            &&& f.subrange(8, 10) == mo
            &&& f.subrange(10, 12) == d
            &&& f.subrange(4, 12) == y + mo + d
            &&& f[12] == '_'
            &&& f.subrange(13, 15) == h
            &&& f.subrange(15, 17) == mi
            &&& f.subrange(17, 19) == sec
            &&& f.subrange(13, 19) == h + mi + sec
            &&& f[19] == '_'
            &&& f[20] == 'V'
            &&& f[21] == '0'
            &&& f[22] == vc
            &&& forall|i: int| 0 <= i < 4 ==> f[i] == icao[i]
            &&& forall|i: int| 4 <= i < 12 ==> f[i] == (y + mo + d)[i - 4]
            &&& forall|i: int| 13 <= i < 19 ==> f[i] == (h + mi + sec)[i - 13]
        }),
{
    let f = icao + y + mo + d + seq!['_'] + h + mi + sec + seq!['_', 'V', '0', vc];
    assert(f.subrange(0, 4) =~= icao);
    assert(f.subrange(4, 8) =~= y);
    assert(f.subrange(8, 10) =~= mo);
    assert(f.subrange(10, 12) =~= d);
    assert(f.subrange(4, 12) =~= y + mo + d);
    assert(f.subrange(13, 15) =~= h);
    assert(f.subrange(15, 17) =~= mi);
    assert(f.subrange(17, 19) =~= sec);
    assert(f.subrange(13, 19) =~= h + mi + sec);
}

proof fn lemma_digit_fields(a: Seq<char>, b: Seq<char>, c: Seq<char>)
    requires
        all_ascii_digits(a),
        all_ascii_digits(b),
        all_ascii_digits(c),
    ensures
        all_ascii_digits(a + b + c),
        forall|i: int| 0 <= i < (a + b + c).len() ==> '0' <= #[trigger] (a + b + c)[i] <= '9',
{
    assert forall|i: int| 0 <= i < (a + b + c).len() implies is_ascii_digit(#[trigger] (a + b + c)[i]) by {
        if i < a.len() {
            assert((a + b + c)[i] == a[i]);
        } else if i < a.len() + b.len() {
            assert((a + b + c)[i] == b[i - a.len()]);
        } else {
            assert((a + b + c)[i] == c[i - a.len() - b.len()]);
        }
    }
}

/// Every key whose last path segment is a four-letter ICAO identifier, the
/// start date and time as `yyyyMMdd_HHmmss` (a valid civil date, a valid
/// time of day) and `_V0` with a format version from 2 to 7, names that
/// volume: that site, that version, starting at that instant.
pub proof fn lemma_volume_key_law(
    prefix: Seq<char>,
    icao: Seq<char>,
    year: nat,
    month: nat,
    day: nat,
    hour: nat,
    minute: nat,
    second: nat,
    version: nat,
)
    requires
        prefix.len() == 0 || prefix.last() == '/',
        icao.len() == 4,
        forall|i: int| 0 <= i < 4 ==> 'A' <= #[trigger] icao[i] <= 'Z',
        year < 10000,
        is_valid_civil_date(year as int, month as int, day as int),
        hour <= 23,
        minute <= 59,
        second <= 59,
        2 <= version <= 7,
    ensures
        ({
            let file = icao + zero_padded(year, 4) + zero_padded(month, 2) + zero_padded(day, 2) + seq!['_']
                + zero_padded(hour, 2) + zero_padded(minute, 2) + zero_padded(second, 2) + seq![
                '_',
                'V',
                '0',
                digit_char(version as int),
            ];
            let key = prefix + file;
            volume_of_key(key) == Some(
                DiscoveredVolumeView {
                    icao,
                    key,
                    format_version: version as u8,
                    start_millis: epoch_day_of(year as int, month as int, day as int) * 86_400_000 + hour
                        * 3_600_000 + minute * 60_000 + second * 1_000,
                },
            )
        }),
{
    let y = zero_padded(year, 4);
    let mo = zero_padded(month, 2);
    let d = zero_padded(day, 2);
    let h = zero_padded(hour, 2);
    let mi = zero_padded(minute, 2);
    let sc = zero_padded(second, 2);
    let vc = digit_char(version as int);
    lemma_zero_padded_four(year);
    lemma_zero_padded_two(month);
    lemma_zero_padded_two(day);
    lemma_zero_padded_two(hour);
    lemma_zero_padded_two(minute);
    lemma_zero_padded_two(second);
    lemma_digit_char_value(version as int);
    lemma_file_name_parts(icao, y, mo, d, h, mi, sc, vc);
    lemma_digit_fields(y, mo, d);
    lemma_digit_fields(h, mi, sc);
    let file = icao + y + mo + d + seq!['_'] + h + mi + sc + seq!['_', 'V', '0', vc];
    let key = prefix + file;
    // The file name has no '/', so it is what follows the key's last '/'.
    assert forall|i: int| 0 <= i < file.len() implies file[i] != '/' by {
        if i < 4 {
            assert(file[i] == icao[i]);
        } else if 4 <= i < 12 {
            assert(file[i] == (y + mo + d)[i - 4]);
        } else if 13 <= i < 19 {
            assert(file[i] == (h + mi + sc)[i - 13]);
        }
    }
    lemma_last_index_of_append(prefix, file, '/');
    if prefix.len() > 0 {
        assert(last_index_of(prefix, '/') == Some(prefix.len() - 1));
        assert(key.skip(prefix.len() as int) =~= file);
    } else {
        assert(key =~= file);
        assert(last_index_of(prefix, '/') is None);
    }
    assert(after_last(key, '/') == file);
    assert(vstd::utf8::is_ascii_chars(file)) by {
        assert forall|i: int| 0 <= i < file.len() implies '\0' <= #[trigger] file[i] <= '\u{7f}' by {
            if i < 4 {
                assert(file[i] == icao[i]);
            } else if 4 <= i < 12 {
                assert(file[i] == (y + mo + d)[i - 4]);
            } else if 13 <= i < 19 {
                assert(file[i] == (h + mi + sc)[i - 13]);
            }
        }
    }
    assert forall|i: int| 0 <= i < 4 implies 'A' <= #[trigger] file[i] <= 'Z' by {
        assert(file[i] == icao[i]);
    }
    assert(is_volume_file_name(file));
}

/// Parse one S3 object key into a [`DiscoveredVolume`], or `None` when it is
/// not a recognized Level II volume-scan object.
pub fn parse_object_key(key: &str) -> (r: Option<DiscoveredVolume>)
    ensures
        match volume_of_key(key@) {
            Some(v) => r is Some && r.unwrap()@ == v,
            None => r is None,
        },
{
    let file_name = str_after_last(key, '/');
    let ghost f = file_name@;
    if !file_name.is_ascii() {
        return None;
    }
    let chars = chars_of(file_name);
    if chars.len() != 23 {
        return None;
    }
    let mut i: usize = 0;
    while i < 4
        invariant
            chars@ == f,
            f == after_last(key@, '/'),
            f.len() == 23,
            i <= 4,
            forall|j: int| 0 <= j < i ==> 'A' <= #[trigger] f[j] <= 'Z',
        decreases 4 - i,
    {
        if chars[i] < 'A' || chars[i] > 'Z' {
            assert(!('A' <= f[i as int] <= 'Z'));
            return None;
        }
        i = i + 1;
    }
    if chars[12] != '_' || chars[19] != '_' {
        return None;
    }
    if !all_digits_in(chars.as_slice(), 4, 12) || !all_digits_in(chars.as_slice(), 13, 19) {
        return None;
    }
    if chars[20] != 'V' || chars[21] != '0' {
        return None;
    }
    let version_digit = chars[22];
    if version_digit < '2' || version_digit > '7' {
        return None;
    }
    let format_version = (version_digit as u32 - 48) as u8;
    proof {
        lemma_digits_sub_run(f, 4, 12, 4, 8);
        lemma_digits_sub_run(f, 4, 12, 8, 10);
        lemma_digits_sub_run(f, 4, 12, 10, 12);
        lemma_digits_sub_run(f, 13, 19, 13, 15);
        lemma_digits_sub_run(f, 13, 19, 15, 17);
        lemma_digits_sub_run(f, 13, 19, 17, 19);
        crate::text::lemma_digits_value_bound(f.subrange(4, 8));
        assert(crate::text::pow10(4) == 10000) by {
            reveal_with_fuel(crate::text::pow10, 5);
        }
    }
    let year = digits_value_of(chars.as_slice(), 4, 8);
    let month = digits_value_of(chars.as_slice(), 8, 10);
    let day = digits_value_of(chars.as_slice(), 10, 12);
    let hour = digits_value_of(chars.as_slice(), 13, 15);
    let minute = digits_value_of(chars.as_slice(), 15, 17);
    let second = digits_value_of(chars.as_slice(), 17, 19);
    if month < 1 || month > 12 || day < 1 || day > 31 {
        return None;
    }
    if hour > 23 || minute > 59 || second > 60 {
        return None;
    }
    let days = days_from_civil(year as i64, month as u32, day as u32);
    proof {
        lemma_epoch_day_small_years(year as int, month as int, day as int);
    }
    let millis = days * MILLIS_PER_DAY + hour as i64 * 3_600_000 + minute as i64 * 60_000
        + second as i64 * 1_000;
    let icao = String::from_str(file_name.substring_char(0, 4));
    let v = DiscoveredVolume {
        start_time: Timestamp::from_epoch_millis(millis),
        key: String::from_str(key),
        icao,
        format_version,
    };
    assert(is_volume_file_name(f));
    Some(v)
}

/// A UTC calendar date (no time of day).
#[derive(Debug, Clone, Copy, PartialEq, Eq)]
pub struct CacheDate {
    pub year: i64,
    pub month: u32,
    pub day: u32,
}

/// The S3 key prefix of one site's objects on one date: `YYYY/MM/DD/ICAO/`.
pub open spec fn key_prefix_of(date: CacheDate, icao: Seq<char>) -> Seq<char> {
    signed_zero_padded(date.year as int, 4) + "/"@ + zero_padded(date.month as nat, 2) + "/"@
        + zero_padded(date.day as nat, 2) + "/"@ + icao + "/"@
}

/// The number of the UTC day (1970-01-01 is day 0) containing the instant
/// `ms` milliseconds after the epoch.
pub open spec fn utc_day_number(ms: int) -> int {
    ms / (MILLIS_PER_DAY as int)
}

/// Milliseconds since the epoch according to the system clock; zero when the
/// clock reads before the epoch, `u128::MAX` is never reached in practice.
#[verifier::external_body]
pub(crate) fn system_clock_millis() -> (ms: u128) {
    std::time::SystemTime::now()
        .duration_since(std::time::UNIX_EPOCH)
        .map(|d| d.as_millis())
        .unwrap_or(0)
}

impl CacheDate {
    pub fn new(year: i64, month: u32, day: u32) -> (date: Self)
        ensures
            date == (CacheDate { year, month, day }),
    {
        CacheDate { year, month, day }
    }

    /// The UTC date containing the instant `ts`.
    pub fn utc_date_of(ts: Timestamp) -> (date: Self)
        ensures
            is_valid_civil_date(date.year as int, date.month as int, date.day as int),
            epoch_day_of(date.year as int, date.month as int, date.day as int) == utc_day_number(ts@),
    {
        let civil = ts.to_civil_utc();
        CacheDate { year: civil.year, month: civil.month, day: civil.day }
    }

    /// The UTC date of a clock reading of `raw_ms` milliseconds after the
    /// epoch; a reading beyond `i64` milliseconds counts as the epoch.
    pub fn date_of_clock_reading(raw_ms: u128) -> (date: Self)
        ensures
            is_valid_civil_date(date.year as int, date.month as int, date.day as int),
            epoch_day_of(date.year as int, date.month as int, date.day as int) == utc_day_number(
                if raw_ms <= i64::MAX { raw_ms as int } else { 0 },
            ),
    {
        let now_millis: i64 = if raw_ms <= i64::MAX as u128 { raw_ms as i64 } else { 0 };
        Self::utc_date_of(Timestamp::from_epoch_millis(now_millis))
    }

    /// Today's date in UTC, per the system clock: [`date_of_clock_reading`]
    /// of the clock's reading (a reading before the epoch counts as the
    /// epoch). Which date that is depends on the time of the call.
    ///
    /// [`date_of_clock_reading`]: CacheDate::date_of_clock_reading
    pub fn today_utc() -> (date: Self)
        ensures
            is_valid_civil_date(date.year as int, date.month as int, date.day as int),
            exists|ms: int|
                0 <= ms <= i64::MAX && epoch_day_of(date.year as int, date.month as int, date.day as int)
                    == #[trigger] utc_day_number(ms),
    {
        let raw = system_clock_millis();
        let date = Self::date_of_clock_reading(raw);
        assert(epoch_day_of(date.year as int, date.month as int, date.day as int) == utc_day_number(
            if raw <= i64::MAX { raw as int } else { 0 },
        ));
        date
    }

    /// The S3 key prefix for this date and site, e.g. `"2026/09/12/KTLX/"`.
    pub fn key_prefix(&self, icao: &str) -> (prefix: String)
        ensures
            prefix@ == key_prefix_of(*self, icao@),
    {
        let mut s = String::new();
        push_signed_zero_padded(&mut s, self.year, 4);
        s.append("/");
        push_zero_padded(&mut s, self.month as u64, 2);
        s.append("/");
        push_zero_padded(&mut s, self.day as u64, 2);
        s.append("/");
        s.append(icao);
        s.append("/");
        assert(s@ =~= key_prefix_of(*self, icao@));
        s
    }
}

} // verus!
