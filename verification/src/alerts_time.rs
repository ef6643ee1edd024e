//! RFC 3339 timestamps of the CAP feed (`2026-09-12T18:09:00-05:00`,
//! `...Z`, optional fractional seconds) parsed into UTC [`Timestamp`]s.
//! The offset is always literal, so no time-zone database is involved.

use vstd::prelude::*;
use crate::calendar::{days_from_civil, epoch_day_of};
use crate::radar_types::{Timestamp, MILLIS_PER_DAY};
use vstd::string::StringSliceAdditionalSpecFns;
use crate::text::{
    all_ascii_digits, all_digits_in, decimal, digits_value, digits_value_of, lemma_digits_sub_run,
    lemma_digits_value_bound, pow10, push_decimal, push_signed_zero_padded, signed_zero_padded,
    is_ascii_digit, lemma_zero_padded_four, lemma_zero_padded_two, zero_padded,
};

verus! {

/// Errors parsing an RFC 3339 timestamp string; each names the byte-level
/// expectation that failed.
#[derive(Debug, Clone, PartialEq, Eq)]
pub enum TimeParseError {
    TooShort { value: String },
    UnexpectedChar { value: String, offset: usize, expected: char },
    NonDigit { value: String, field: &'static str },
    OutOfRange { value: String, field: &'static str, found: i64 },
    InvalidOffset { value: String },
}

/// The bytes of a string, each taken as the character with that code.
pub open spec fn byte_chars(b: Seq<u8>) -> Seq<char> {
    b.map_values(|x: u8| x as char)
}

/// What parsing yields, without the echoed input.
pub ghost enum TimeOutcome {
    Millis(int),
    TooShort,
    UnexpectedChar { offset: int, expected: char },
    NonDigit { field: Seq<char> },
    OutOfRange { field: Seq<char>, found: int },
    InvalidOffset,
}

pub open spec fn field_value(s: Seq<char>, start: int, end: int) -> int {
    digits_value(s.subrange(start, end)) as int
}

/// End of the run of ASCII digits of `s` that starts at `from`.
pub open spec fn digit_run_end(s: Seq<char>, from: int) -> int
    decreases s.len() - from,
{
    if from < s.len() && '0' <= s[from] <= '9' {
        digit_run_end(s, from + 1)
    } else {
        from
    }
}

/// Milliseconds given by a fraction-of-second digit run: its first three
/// digits, padded with zeros on the right.
pub open spec fn fraction_millis(digits: Seq<char>) -> int {
    if digits.len() >= 3 {
        digits_value(digits.take(3)) as int
    } else if digits.len() == 2 {
        (digits_value(digits) * 10) as int
    } else {
        (digits_value(digits) * 100) as int
    }
}

/// The UTC offset in minutes of the suffix that starts at `pos`, or why it
/// is rejected.
pub open spec fn offset_minutes(s: Seq<char>, pos: int) -> Result<int, TimeOutcome> {
    if pos < s.len() && (s[pos] == 'Z' || s[pos] == 'z') {
        if pos + 1 != s.len() { Err(TimeOutcome::InvalidOffset) } else { Ok(0) }
    } else if pos < s.len() && (s[pos] == '+' || s[pos] == '-') {
        if s.len() != pos + 6 || s[pos + 3] != ':' {
            Err(TimeOutcome::InvalidOffset)
        } else if !all_ascii_digits(s.subrange(pos + 1, pos + 3)) {
            Err(TimeOutcome::NonDigit { field: "offset hour"@ })
        } else if !all_ascii_digits(s.subrange(pos + 4, pos + 6)) {
            Err(TimeOutcome::NonDigit { field: "offset minute"@ })
        } else if field_value(s, pos + 1, pos + 3) > 23 || field_value(s, pos + 4, pos + 6) > 59 {
            Err(TimeOutcome::InvalidOffset)
        } else {
            let magnitude = field_value(s, pos + 1, pos + 3) * 60 + field_value(s, pos + 4, pos + 6);
            Ok(if s[pos] == '-' { -magnitude } else { magnitude })
        }
    } else {
        Err(TimeOutcome::InvalidOffset)
    }
}

/// The fixed `YYYY-MM-DDTHH:MM:SS` head: the first failed check, if any.
pub open spec fn head_error(s: Seq<char>) -> Option<TimeOutcome> {
    if !all_ascii_digits(s.subrange(0, 4)) {
        Some(TimeOutcome::NonDigit { field: "year"@ })
    } else if s[4] != '-' {
        Some(TimeOutcome::UnexpectedChar { offset: 4, expected: '-' })
    } else if !all_ascii_digits(s.subrange(5, 7)) {
        Some(TimeOutcome::NonDigit { field: "month"@ })
    } else if s[7] != '-' {
        Some(TimeOutcome::UnexpectedChar { offset: 7, expected: '-' })
    } else if !all_ascii_digits(s.subrange(8, 10)) {
        Some(TimeOutcome::NonDigit { field: "day"@ })
    } else if s[10] != 'T' {
        Some(TimeOutcome::UnexpectedChar { offset: 10, expected: 'T' })
    } else if !all_ascii_digits(s.subrange(11, 13)) {
        Some(TimeOutcome::NonDigit { field: "hour"@ })
    } else if s[13] != ':' {
        Some(TimeOutcome::UnexpectedChar { offset: 13, expected: ':' })
    } else if !all_ascii_digits(s.subrange(14, 16)) {
        Some(TimeOutcome::NonDigit { field: "minute"@ })
    } else if s[16] != ':' {
        Some(TimeOutcome::UnexpectedChar { offset: 16, expected: ':' })
    } else if !all_ascii_digits(s.subrange(17, 19)) {
        Some(TimeOutcome::NonDigit { field: "second"@ })
    } else if !(1 <= field_value(s, 5, 7) <= 12) {
        Some(TimeOutcome::OutOfRange { field: "month"@, found: field_value(s, 5, 7) })
    } else if !(1 <= field_value(s, 8, 10) <= 31) {
        Some(TimeOutcome::OutOfRange { field: "day"@, found: field_value(s, 8, 10) })
    } else if field_value(s, 11, 13) > 23 {
        Some(TimeOutcome::OutOfRange { field: "hour"@, found: field_value(s, 11, 13) })
    } else if field_value(s, 14, 16) > 59 {
        Some(TimeOutcome::OutOfRange { field: "minute"@, found: field_value(s, 14, 16) })
    } else if field_value(s, 17, 19) > 60 {
        Some(TimeOutcome::OutOfRange { field: "second"@, found: field_value(s, 17, 19) })
    } else {
        None
    }
}

/// RFC 3339 as this feed writes it, over the bytes `s` of the input (each
/// taken as a character): the outcome of parsing.
pub open spec fn rfc3339(s: Seq<char>) -> TimeOutcome {
    if s.len() < 20 {
        TimeOutcome::TooShort
    } else if head_error(s) is Some {
        head_error(s).unwrap()
    } else {
        let has_fraction = s[19] == '.';
        let frac_end = if has_fraction { digit_run_end(s, 20) } else { 19 };
        if has_fraction && frac_end == 20 {
            TimeOutcome::NonDigit { field: "fractional seconds"@ }
        } else {
            let millis = if has_fraction { fraction_millis(s.subrange(20, frac_end)) } else { 0 };
            match offset_minutes(s, frac_end) {
                Err(e) => e,
                Ok(offset) => TimeOutcome::Millis(
                    epoch_day_of(field_value(s, 0, 4), field_value(s, 5, 7), field_value(s, 8, 10))
                        * MILLIS_PER_DAY + field_value(s, 11, 13) * 3_600_000 + field_value(s, 14, 16)
                        * 60_000 + field_value(s, 17, 19) * 1_000 + millis - offset * 60_000,
                ),
            }
        }
    }
}

/// The text of a timestamp assembled from its fields: the fixed head
/// followed by `suffix`, with every field at its fixed position.
proof fn lemma_timestamp_parts(
    y: Seq<char>,
    mo: Seq<char>,
    d: Seq<char>,
    h: Seq<char>,
    mi: Seq<char>,
    sec: Seq<char>,
    suffix: Seq<char>,
)
    requires
        y.len() == 4,
        mo.len() == 2,
        d.len() == 2,
        h.len() == 2,
        mi.len() == 2,
        sec.len() == 2,
    ensures
        ({
            let s = y + seq!['-'] + mo + seq!['-'] + d + seq!['T'] + h + seq![':'] + mi + seq![':'] + sec + suffix;
            &&& s.len() == 19 + suffix.len()
            &&& s.subrange(0, 4) == y
            &&& s[4] == '-'
            &&& s.subrange(5, 7) == mo
            &&& s[7] == '-'
            &&& s.subrange(8, 10) == d
            &&& s[10] == 'T'
            &&& s.subrange(11, 13) == h
            &&& s[13] == ':'
            &&& s.subrange(14, 16) == mi
            &&& s[16] == ':'
            &&& s.subrange(17, 19) == sec
            &&& forall|i: int| 0 <= i < suffix.len() ==> s[19 + i] == suffix[i]
            &&& s.subrange(19, s.len() as int) == suffix
        }),
{
    let s = y + seq!['-'] + mo + seq!['-'] + d + seq!['T'] + h + seq![':'] + mi + seq![':'] + sec + suffix;
    assert(s.subrange(0, 4) =~= y);
    assert(s.subrange(5, 7) =~= mo);
    assert(s.subrange(8, 10) =~= d);
    assert(s.subrange(11, 13) =~= h);
    assert(s.subrange(14, 16) =~= mi);
    assert(s.subrange(17, 19) =~= sec);
    assert(s.subrange(19, s.len() as int) =~= suffix);
}

/// The UTC offset suffix of a timestamp: `Z`, or a sign, two hour digits,
/// `:` and two minute digits (`east` for `+`).
pub open spec fn offset_suffix(utc: bool, east: bool, offset_hour: nat, offset_minute: nat) -> Seq<char> {
    if utc {
        seq!['Z']
    } else {
        seq![if east { '+' } else { '-' }] + zero_padded(offset_hour, 2) + seq![':'] + zero_padded(offset_minute, 2)
    }
}

/// Every well-formed timestamp naming a valid civil date and a valid time
/// parses: `YYYY-MM-DDTHH:MM:SS` followed by `Z` or `±HH:MM` gives the
/// instant that many milliseconds after the epoch, the offset subtracted
/// (so `-05:00` is five hours behind UTC). Every day of every month is
/// accepted.
pub proof fn lemma_rfc3339_parses_valid_instants(
    year: nat,
    month: nat,
    day: nat,
    hour: nat,
    minute: nat,
    second: nat,
    utc: bool,
    east: bool,
    offset_hour: nat,
    offset_minute: nat,
)
    requires
        year < 10000,
        crate::calendar::is_valid_civil_date(year as int, month as int, day as int),
        hour <= 23,
        minute <= 59,
        second <= 59,
        offset_hour <= 23,
        offset_minute <= 59,
    ensures
        ({
            let text = zero_padded(year, 4) + seq!['-'] + zero_padded(month, 2) + seq!['-'] + zero_padded(day, 2)
                + seq!['T'] + zero_padded(hour, 2) + seq![':'] + zero_padded(minute, 2) + seq![':']
                + zero_padded(second, 2) + offset_suffix(utc, east, offset_hour, offset_minute);
            let offset: int = if utc {
                0
            } else if east {
                (offset_hour * 60 + offset_minute) as int
            } else {
                -(offset_hour * 60 + offset_minute)
            };
            rfc3339(text) == TimeOutcome::Millis(
                epoch_day_of(year as int, month as int, day as int) * 86_400_000 + hour * 3_600_000 + minute
                    * 60_000 + second * 1_000 - offset * 60_000,
            )
        }),
{
    let y = zero_padded(year, 4);
    let mo = zero_padded(month, 2);
    let d = zero_padded(day, 2);
    let h = zero_padded(hour, 2);
    let mi = zero_padded(minute, 2);
    let sc = zero_padded(second, 2);
    lemma_zero_padded_four(year);
    lemma_zero_padded_two(month);
    lemma_zero_padded_two(day);
    lemma_zero_padded_two(hour);
    lemma_zero_padded_two(minute);
    lemma_zero_padded_two(second);
    let suffix = offset_suffix(utc, east, offset_hour, offset_minute);
    let oh = zero_padded(offset_hour, 2);
    let om = zero_padded(offset_minute, 2);
    lemma_zero_padded_two(offset_hour);
    lemma_zero_padded_two(offset_minute);
    lemma_timestamp_parts(y, mo, d, h, mi, sc, suffix);
    let s = y + seq!['-'] + mo + seq!['-'] + d + seq!['T'] + h + seq![':'] + mi + seq![':'] + sc + suffix;
    assert(head_error(s) is None);
    if utc {
        assert(s[19] == 'Z');
        assert(s.len() == 20);
        assert(offset_minutes(s, 19) == Ok::<int, TimeOutcome>(0));
    } else {
        let sign = if east { '+' } else { '-' };
        assert(suffix =~= seq![sign] + oh + seq![':'] + om);
        assert(s[19] == sign);
        assert(s.len() == 25);
        assert(s[22] == ':');
        assert(s.subrange(20, 22) =~= oh) by {
            assert forall|i: int| 0 <= i < 2 implies s.subrange(20, 22)[i] == oh[i] by {
                assert(s[20 + i] == suffix[1 + i]);
            }
        }
        assert(s.subrange(23, 25) =~= om) by {
            assert forall|i: int| 0 <= i < 2 implies s.subrange(23, 25)[i] == om[i] by {
                assert(s[23 + i] == suffix[4 + i]);
            }
        }
    }
}

/// The error `e` reports the outcome `o` for the input `value`.
pub open spec fn reports(e: TimeParseError, o: TimeOutcome, value: Seq<char>) -> bool {
    match (e, o) {
        (TimeParseError::TooShort { value: v }, TimeOutcome::TooShort) => v@ == value,
        (
            TimeParseError::UnexpectedChar { value: v, offset, expected },
            TimeOutcome::UnexpectedChar { offset: o2, expected: e2 },
        ) => v@ == value && offset == o2 && expected == e2,
        (TimeParseError::NonDigit { value: v, field }, TimeOutcome::NonDigit { field: f2 }) => v@
            == value && field@ == f2,
        (
            TimeParseError::OutOfRange { value: v, field, found },
            TimeOutcome::OutOfRange { field: f2, found: n2 },
        ) => v@ == value && field@ == f2 && found == n2,
        (TimeParseError::InvalidOffset { value: v }, TimeOutcome::InvalidOffset) => v@ == value,
        _ => false,
    }
}



/// What `format!("{:?}", s)` gives for a string slice `s` (std's `Debug`
/// rendering: quoted, with escapes).
pub uninterp spec fn str_debug(s: Seq<char>) -> Seq<char>;

/// What `format!("{:?}", c)` gives for a character `c`.
pub uninterp spec fn char_debug(c: char) -> Seq<char>;

/// std's `Debug` rendering of a string slice, `format!("{s:?}")`. Trusted:
/// the result is taken to be [`str_debug`] of the text; nothing more about
/// the escaping is stated.
#[verifier::external_body]
pub(crate) fn debug_str(s: &str) -> (r: String)
    ensures
        r@ == str_debug(s@),
{
    format!("{s:?}")
}

/// std's `Debug` rendering of a character, `format!("{c:?}")`. Trusted: the
/// result is taken to be [`char_debug`] of the character.
#[verifier::external_body]
pub(crate) fn debug_char(c: char) -> (r: String)
    ensures
        r@ == char_debug(c),
{
    format!("{c:?}")
}

/// The outcome an error reports, with the input it echoes.
pub open spec fn time_error_view(e: TimeParseError) -> (TimeOutcome, Seq<char>) {
    match e {
        TimeParseError::TooShort { value } => (TimeOutcome::TooShort, value@),
        TimeParseError::UnexpectedChar { value, offset, expected } => (
            TimeOutcome::UnexpectedChar { offset: offset as int, expected },
            value@,
        ),
        TimeParseError::NonDigit { value, field } => (TimeOutcome::NonDigit { field: field@ }, value@),
        TimeParseError::OutOfRange { value, field, found } => (
            TimeOutcome::OutOfRange { field: field@, found: found as int },
            value@,
        ),
        TimeParseError::InvalidOffset { value } => (TimeOutcome::InvalidOffset, value@),
    }
}

/// The human-readable message of a failed parse of `value`.
pub open spec fn time_message(o: TimeOutcome, value: Seq<char>) -> Seq<char> {
    let head = "timestamp "@ + str_debug(value);
    match o {
        TimeOutcome::TooShort => head + " is too short to be a valid RFC 3339 timestamp"@,
        TimeOutcome::UnexpectedChar { offset, expected } => head + " has an unexpected character "@
            + char_debug(expected) + " at byte offset "@ + decimal(offset as nat),
        TimeOutcome::NonDigit { field } => head + " has a non-digit character in its "@ + field + " field"@,
        TimeOutcome::OutOfRange { field, found } => head + " has an out-of-range "@ + field + " value "@
            + signed_zero_padded(found, 0),
        _ => head + " has an unrecognized UTC offset suffix"@,
    }
}

impl TimeParseError {
    /// The error's human-readable message.
    pub fn to_string(&self) -> (m: String)
        ensures
            m@ == time_message(time_error_view(*self).0, time_error_view(*self).1),
    {
        let mut m = String::from_str("timestamp ");
        let value = match self {
            TimeParseError::TooShort { value } => value,
            TimeParseError::UnexpectedChar { value, .. } => value,
            TimeParseError::NonDigit { value, .. } => value,
            TimeParseError::OutOfRange { value, .. } => value,
            TimeParseError::InvalidOffset { value } => value,
        };
        let quoted = debug_str(value.as_str());
        m.append(quoted.as_str());
        proof {
            reveal_strlit("timestamp ");
            reveal_strlit(" is too short to be a valid RFC 3339 timestamp");
            reveal_strlit(" has an unexpected character ");
            reveal_strlit(" at byte offset ");
            reveal_strlit(" has a non-digit character in its ");
            reveal_strlit(" field");
            reveal_strlit(" has an out-of-range ");
            reveal_strlit(" value ");
            reveal_strlit(" has an unrecognized UTC offset suffix");
        }
        match self {
            TimeParseError::TooShort { .. } => {
                m.append(" is too short to be a valid RFC 3339 timestamp");
            },
            TimeParseError::UnexpectedChar { offset, expected, .. } => {
                m.append(" has an unexpected character ");
                let c = debug_char(*expected);
                m.append(c.as_str());
                m.append(" at byte offset ");
                push_decimal(&mut m, *offset as u64);
            },
            TimeParseError::NonDigit { field, .. } => {
                m.append(" has a non-digit character in its ");
                m.append(field);
                m.append(" field");
            },
            TimeParseError::OutOfRange { field, found, .. } => {
                m.append(" has an out-of-range ");
                m.append(field);
                m.append(" value ");
                push_signed_zero_padded(&mut m, *found, 0);
            },
            TimeParseError::InvalidOffset { .. } => {
                m.append(" has an unrecognized UTC offset suffix");
            },
        }
        assert(m@ =~= time_message(time_error_view(*self).0, time_error_view(*self).1));
        m
    }
}

fn byte_chars_of(value: &str) -> (s: Vec<char>)
    ensures
        s@ == byte_chars(value.spec_bytes()),
{
    let bytes = value.as_bytes();
    let mut s: Vec<char> = Vec::new();
    let mut i: usize = 0;
    while i < bytes.len()
        invariant
            i <= bytes@.len(),
            bytes@ == value.spec_bytes(),
            s@ == byte_chars(bytes@.subrange(0, i as int)),
        decreases bytes@.len() - i,
    {
        s.push(bytes[i] as char);
        i = i + 1;
        assert(s@ =~= byte_chars(bytes@.subrange(0, i as int)));
    }
    assert(bytes@.subrange(0, i as int) =~= bytes@);
    s
}

fn non_digit(value: &str, field: &'static str) -> (e: TimeParseError)
    ensures
        e == (TimeParseError::NonDigit { value: e->NonDigit_value, field }),
        e->NonDigit_value@ == value@,
{
    TimeParseError::NonDigit { value: String::from_str(value), field }
}

fn unexpected(value: &str, offset: usize, expected: char) -> (e: TimeParseError)
    ensures
        e == (TimeParseError::UnexpectedChar { value: e->UnexpectedChar_value, offset, expected }),
        e->UnexpectedChar_value@ == value@,
{
    TimeParseError::UnexpectedChar { value: String::from_str(value), offset, expected }
}

fn out_of_range(value: &str, field: &'static str, found: i64) -> (e: TimeParseError)
    ensures
        e == (TimeParseError::OutOfRange { value: e->OutOfRange_value, field, found }),
        e->OutOfRange_value@ == value@,
{
    TimeParseError::OutOfRange { value: String::from_str(value), field, found }
}

fn invalid_offset(value: &str) -> (e: TimeParseError)
    ensures
        e == (TimeParseError::InvalidOffset { value: e->InvalidOffset_value }),
        e->InvalidOffset_value@ == value@,
{
    TimeParseError::InvalidOffset { value: String::from_str(value) }
}

proof fn lemma_field_small(s: Seq<char>, start: int, end: int)
    requires
        0 <= start <= end <= s.len(),
        end - start <= 4,
        all_ascii_digits(s.subrange(start, end)),
    ensures
        0 <= field_value(s, start, end) < 10000,
{
    lemma_digits_value_bound(s.subrange(start, end));
    reveal_with_fuel(pow10, 5);
}

proof fn lemma_digit_run_end(s: Seq<char>, from: int)
    requires
        0 <= from <= s.len(),
    ensures
        from <= digit_run_end(s, from) <= s.len(),
        forall|j: int| from <= j < digit_run_end(s, from) ==> '0' <= #[trigger] s[j] <= '9',
        digit_run_end(s, from) < s.len() ==> !('0' <= s[digit_run_end(s, from)] <= '9'),
    decreases s.len() - from,
{
    if from < s.len() && '0' <= s[from] <= '9' {
        lemma_digit_run_end(s, from + 1);
    }
}

/// Parse an RFC 3339 timestamp (`Z`/`z` or `+HH:MM`/`-HH:MM` offset,
/// optional fractional seconds truncated to milliseconds) into UTC.
pub fn parse_rfc3339(value: &str) -> (r: Result<Timestamp, TimeParseError>)
    ensures
        match rfc3339(byte_chars(value.spec_bytes())) {
            TimeOutcome::Millis(m) => r is Ok && r.unwrap()@ == m,
            o => r is Err && reports(r.unwrap_err(), o, value@),
        },
{
    let s = byte_chars_of(value);
    let ghost g = s@;
    let n = s.len();
    if n < 20 {
        return Err(TimeParseError::TooShort { value: String::from_str(value) });
    }
    let sl = s.as_slice();
    if !all_digits_in(sl, 0, 4) {
        return Err(non_digit(value, "year"));
    }
    if s[4] != '-' {
        return Err(unexpected(value, 4, '-'));
    }
    if !all_digits_in(sl, 5, 7) {
        return Err(non_digit(value, "month"));
    }
    if s[7] != '-' {
        return Err(unexpected(value, 7, '-'));
    }
    if !all_digits_in(sl, 8, 10) {
        return Err(non_digit(value, "day"));
    }
    if s[10] != 'T' {
        return Err(unexpected(value, 10, 'T'));
    }
    if !all_digits_in(sl, 11, 13) {
        return Err(non_digit(value, "hour"));
    }
    if s[13] != ':' {
        return Err(unexpected(value, 13, ':'));
    }
    if !all_digits_in(sl, 14, 16) {
        return Err(non_digit(value, "minute"));
    }
    if s[16] != ':' {
        return Err(unexpected(value, 16, ':'));
    }
    if !all_digits_in(sl, 17, 19) {
        return Err(non_digit(value, "second"));
    }
    proof {
        lemma_field_small(g, 0, 4);
        lemma_field_small(g, 5, 7);
        lemma_field_small(g, 8, 10);
        lemma_field_small(g, 11, 13);
        lemma_field_small(g, 14, 16);
        lemma_field_small(g, 17, 19);
    }
    let year = digits_value_of(sl, 0, 4) as i64;
    let month = digits_value_of(sl, 5, 7) as i64;
    let day = digits_value_of(sl, 8, 10) as i64;
    let hour = digits_value_of(sl, 11, 13) as i64;
    let minute = digits_value_of(sl, 14, 16) as i64;
    let second = digits_value_of(sl, 17, 19) as i64;
    if month < 1 || month > 12 {
        return Err(out_of_range(value, "month", month));
    }
    if day < 1 || day > 31 {
        return Err(out_of_range(value, "day", day));
    }
    if hour > 23 {
        return Err(out_of_range(value, "hour", hour));
    }
    if minute > 59 {
        return Err(out_of_range(value, "minute", minute));
    }
    if second > 60 {
        return Err(out_of_range(value, "second", second));
    }
    assert(head_error(g) is None);
    let mut pos: usize = 19;
    let mut millisecond: i64 = 0;
    if s[19] == '.' {
        let start: usize = 20;
        let mut end: usize = start;
        while end < n && s[end] >= '0' && s[end] <= '9'
            invariant
                n == g.len(),
                s@ == g,
                start <= end <= n,
                digit_run_end(g, end as int) == digit_run_end(g, start as int),
            decreases n - end,
        {
            end = end + 1;
        }
        proof {
            lemma_digit_run_end(g, 20);
        }
        if end == start {
            return Err(non_digit(value, "fractional seconds"));
        }
        let ghost run = g.subrange(20, end as int);
        assert(all_ascii_digits(run));
        let kept = if end - start >= 3 { 3 } else { end - start };
        proof {
            lemma_digits_sub_run(g, 20, end as int, 20, 20 + kept);
            lemma_field_small(g, 20, 20 + kept);
            if end - start >= 3 {
                assert(run.take(3) =~= g.subrange(20, 23));
            }
        }
        let digits = digits_value_of(sl, start, start + kept) as i64;
        millisecond = if kept == 3 { digits } else if kept == 2 { digits * 10 } else { digits * 100 };
        pos = end;
    }
    assert(pos == (if g[19] == '.' { digit_run_end(g, 20) } else { 19 }));
    let offset: i64;
    if pos < n && (s[pos] == 'Z' || s[pos] == 'z') {
        if pos + 1 != n {
            return Err(invalid_offset(value));
        }
        offset = 0;
    } else if pos < n && (s[pos] == '+' || s[pos] == '-') {
        if n - pos != 6 || s[pos + 3] != ':' {
            return Err(invalid_offset(value));
        }
        if !all_digits_in(sl, pos + 1, pos + 3) {
            return Err(non_digit(value, "offset hour"));
        }
        if !all_digits_in(sl, pos + 4, pos + 6) {
            return Err(non_digit(value, "offset minute"));
        }
        proof {
            lemma_field_small(g, pos + 1, pos + 3);
            lemma_field_small(g, pos + 4, pos + 6);
        }
        let offset_hour = digits_value_of(sl, pos + 1, pos + 3) as i64;
        let offset_minute = digits_value_of(sl, pos + 4, pos + 6) as i64;
        if offset_hour > 23 || offset_minute > 59 {
            return Err(invalid_offset(value));
        }
        let magnitude = offset_hour * 60 + offset_minute;
        offset = if s[pos] == '-' { -magnitude } else { magnitude };
    } else {
        return Err(invalid_offset(value));
    }
    assert(offset_minutes(g, pos as int) == Ok::<int, TimeOutcome>(offset as int));
    let days = days_from_civil(year, month as u32, day as u32);
    proof {
        assert(-800_000 <= epoch_day_of(year as int, month as int, day as int) <= 3_000_000);
    }
    let local_millis = days * MILLIS_PER_DAY + hour * 3_600_000 + minute * 60_000 + second * 1_000
        + millisecond;
    Ok(Timestamp::from_epoch_millis(local_millis - offset * 60_000))
}

} // verus!
