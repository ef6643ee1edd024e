//! Small verified helpers on text: equality of string slices, the characters
//! of a string, ASCII decimal digits, and zero-padded decimal rendering.

use vstd::prelude::*;

verus! {

broadcast use vstd::utf8::encode_utf8_decode_utf8;

/// Byte-wise equality of two slices.
pub fn bytes_eq(a: &[u8], b: &[u8]) -> (r: bool)
    ensures
        r == (a@ == b@),
{
    if a.len() != b.len() {
        return false;
    }
    let mut i: usize = 0;
    while i < a.len()
        invariant
            a@.len() == b@.len(),
            i <= a@.len(),
            forall|j: int| 0 <= j < i ==> a@[j] == b@[j],
        decreases a@.len() - i,
    {
        if a[i] != b[i] {
            return false;
        }
        i = i + 1;
    }
    assert(a@ =~= b@);
    true
}

/// The characters of `s`, in order.
pub fn chars_of(s: &str) -> (v: Vec<char>)
    ensures
        v@ == s@,
{
    let mut v: Vec<char> = Vec::new();
    for c in it: s.chars()
        invariant
            v@ == it.seq().take(it.index() as int),
            it.seq() == s@,
    {
        v.push(c);
    }
    v
}

/// Equality of the characters of two string slices.
pub fn str_eq(a: &str, b: &str) -> (r: bool)
    ensures
        r == (a@ == b@),
{
    let r = bytes_eq(a.as_bytes(), b.as_bytes());
    proof {
        if r {
            assert(vstd::utf8::decode_utf8(vstd::utf8::encode_utf8(a@)) == a@);
            assert(vstd::utf8::decode_utf8(vstd::utf8::encode_utf8(b@)) == b@);
        }
    }
    r
}


// ---------------------------------------------------------------------------
// ASCII decimal digits

pub open spec fn is_ascii_digit(c: char) -> bool {
    '0' <= c <= '9'
}

pub open spec fn all_ascii_digits(s: Seq<char>) -> bool {
    forall|i: int| 0 <= i < s.len() ==> is_ascii_digit(#[trigger] s[i])
}

/// The value of a run of ASCII decimal digits (most significant first).
pub open spec fn digits_value(s: Seq<char>) -> nat
    decreases s.len(),
{
    if s.len() == 0 {
        0
    } else {
        (digits_value(s.drop_last()) * 10 + (s.last() as int - 48)) as nat
    }
}

pub open spec fn pow10(n: nat) -> nat
    decreases n,
{
    if n == 0 { 1 } else { 10 * pow10((n - 1) as nat) }
}

pub proof fn lemma_digits_value_bound(s: Seq<char>)
    requires
        all_ascii_digits(s),
    ensures
        digits_value(s) < pow10(s.len()),
    decreases s.len(),
{
    if s.len() > 0 {
        lemma_digits_value_bound(s.drop_last());
        assert(is_ascii_digit(s[s.len() - 1]));
    }
}

/// Extending a digit run never lowers its value.
pub proof fn lemma_digits_value_prefix(s: Seq<char>, i: int)
    requires
        all_ascii_digits(s),
        0 <= i <= s.len(),
    ensures
        digits_value(s.subrange(0, i)) <= digits_value(s),
    decreases s.len() - i,
{
    if i < s.len() {
        lemma_digits_value_prefix(s, i + 1);
        assert(s.subrange(0, i + 1).drop_last() =~= s.subrange(0, i));
        assert(is_ascii_digit(s[i]));
    } else {
        assert(s.subrange(0, i) =~= s);
    }
}

/// The value of the digits `chars[start..end]`; every byte there is a digit
/// and the run is short enough not to overflow.
pub fn digits_value_of(chars: &[char], start: usize, end: usize) -> (v: u64)
    requires
        start <= end <= chars@.len(),
        end - start <= 18,
        all_ascii_digits(chars@.subrange(start as int, end as int)),
    ensures
        v == digits_value(chars@.subrange(start as int, end as int)),
{
    let mut v: u64 = 0;
    let mut i = start;
    while i < end
        invariant
            start <= i <= end <= chars@.len(),
            end - start <= 18,
            all_ascii_digits(chars@.subrange(start as int, end as int)),
            v == digits_value(chars@.subrange(start as int, i as int)),
            v < pow10((i - start) as nat),
            pow10((i - start) as nat) <= 1_000_000_000_000_000_000,
        decreases end - i,
    {
        let ghost run = chars@.subrange(start as int, end as int);
        assert(is_ascii_digit(run[i - start]));
        assert(chars@.subrange(start as int, i + 1).drop_last() =~= chars@.subrange(start as int, i as int));
        proof {
            assert(pow10((i + 1 - start) as nat) == 10 * pow10((i - start) as nat));
            lemma_pow10_le((i + 1 - start) as nat, 18);
        }
        v = v * 10 + (chars[i] as u64 - 48);
        i = i + 1;
    }
    v
}

pub proof fn lemma_pow10_le(a: nat, b: nat)
    requires
        a <= b,
        b == 18,
    ensures
        pow10(a) <= 1_000_000_000_000_000_000,
    decreases b - a,
{
    if a < b {
        lemma_pow10_le(a + 1, b);
        assert(pow10(a + 1) == 10 * pow10(a));
    } else {
        reveal_with_fuel(pow10, 19);
    }
}

/// What Rust's `str::parse` yields for an unsigned integer type with
/// maximum `max`: an optional leading `+`, then one or more decimal digits
/// whose value does not exceed `max`.
pub open spec fn parse_unsigned(s: Seq<char>, max: nat) -> Option<nat> {
    let digits = if s.len() > 0 && s[0] == '+' { s.drop_first() } else { s };
    if digits.len() > 0 && all_ascii_digits(digits) && digits_value(digits) <= max {
        Some(digits_value(digits))
    } else {
        None
    }
}

/// Parse `chars[start..end]` the way `str::parse::<uN>` does, for a type whose
/// maximum is `max`.
pub fn parse_unsigned_field(chars: &[char], start: usize, end: usize, max: u64) -> (r: Option<u64>)
    requires
        start <= end <= chars@.len(),
    ensures
        r == (match parse_unsigned(chars@.subrange(start as int, end as int), max as nat) {
            Some(v) => Some(v as u64),
            None => None::<u64>,
        }),
{
    let ghost s = chars@.subrange(start as int, end as int);
    let mut i = start;
    if i < end && chars[i] == '+' {
        i = i + 1;
    }
    let ghost digits = chars@.subrange(i as int, end as int);
    assert(digits =~= (if s.len() > 0 && s[0] == '+' { s.drop_first() } else { s }));
    if i == end {
        return None;
    }
    let first_digits = i;
    let mut v: u64 = 0;
    assert(parse_unsigned(s, max as nat) == (if all_ascii_digits(digits) && digits_value(digits)
        <= max { Some(digits_value(digits)) } else { None }));
    while i < end
        invariant
            first_digits < end,
            digits.len() > 0,
            parse_unsigned(chars@.subrange(start as int, end as int), max as nat) == (if all_ascii_digits(digits)
                && digits_value(digits) <= max { Some(digits_value(digits)) } else { None }),
            first_digits <= i <= end <= chars@.len(),
            digits == chars@.subrange(first_digits as int, end as int),
            all_ascii_digits(chars@.subrange(first_digits as int, i as int)),
            v == digits_value(chars@.subrange(first_digits as int, i as int)),
            v <= max,
        decreases end - i,
    {
        let b = chars[i];
        if b < '0' || b > '9' {
            assert(digits[i - first_digits] == b);
            assert(!is_ascii_digit(digits[i - first_digits]));
            return None;
        }
        assert(chars@.subrange(first_digits as int, i + 1).drop_last()
            =~= chars@.subrange(first_digits as int, i as int));
        let d = b as u64 - 48;
        if v > max / 10 || (v == max / 10 && d > max % 10) {
            proof {
                assert(digits_value(chars@.subrange(first_digits as int, i + 1)) > max);
                assert forall|j: int| 0 <= j < i + 1 - first_digits implies is_ascii_digit(
                    #[trigger] chars@.subrange(first_digits as int, i + 1)[j],
                ) by {
                    if j < i - first_digits {
                        assert(chars@.subrange(first_digits as int, i as int)[j]
                            == chars@.subrange(first_digits as int, i + 1)[j]);
                    }
                }
                if all_ascii_digits(digits) {
                    lemma_digits_value_prefix(digits, i + 1 - first_digits);
                    assert(digits.subrange(0, i + 1 - first_digits) =~= chars@.subrange(
                        first_digits as int,
                        i + 1,
                    ));
                }
            }
            return None;
        }
        v = v * 10 + d;
        i = i + 1;
        proof {
            assert forall|j: int| 0 <= j < i - first_digits implies is_ascii_digit(
                #[trigger] chars@.subrange(first_digits as int, i as int)[j],
            ) by {
                if j < i - 1 - first_digits {
                    assert(chars@.subrange(first_digits as int, i - 1)[j]
                        == chars@.subrange(first_digits as int, i as int)[j]);
                }
            }
        }
    }
    assert(chars@.subrange(first_digits as int, i as int) =~= digits);
    Some(v)
}

/// Whether `chars[start..end]` is all ASCII digits.
pub fn all_digits_in(chars: &[char], start: usize, end: usize) -> (r: bool)
    requires
        start <= end <= chars@.len(),
    ensures
        r == all_ascii_digits(chars@.subrange(start as int, end as int)),
{
    let mut i = start;
    while i < end
        invariant
            start <= i <= end <= chars@.len(),
            forall|j: int| start <= j < i ==> is_ascii_digit(chars@[j]),
        decreases end - i,
    {
        if chars[i] < '0' || chars[i] > '9' {
            assert(!is_ascii_digit(chars@.subrange(start as int, end as int)[i - start]));
            return false;
        }
        i = i + 1;
    }
    assert forall|j: int| 0 <= j < end - start implies is_ascii_digit(
        #[trigger] chars@.subrange(start as int, end as int)[j],
    ) by {
        assert(chars@.subrange(start as int, end as int)[j] == chars@[start + j]);
    }
    true
}

pub proof fn lemma_digits_sub_run(s: Seq<char>, a: int, b: int, c: int, d: int)
    requires
        0 <= a <= c <= d <= b <= s.len(),
        all_ascii_digits(s.subrange(a, b)),
    ensures
        all_ascii_digits(s.subrange(c, d)),
{
    assert forall|j: int| 0 <= j < d - c implies is_ascii_digit(#[trigger] s.subrange(c, d)[j]) by {
        assert(s.subrange(c, d)[j] == s.subrange(a, b)[c - a + j]);
    }
}

// ---------------------------------------------------------------------------
// Decimal rendering

pub open spec fn digit_char(d: int) -> char {
    (48 + d) as char
}

/// Decimal representation of `n` without leading zeros (`"0"` for zero).
pub open spec fn decimal(n: nat) -> Seq<char>
    decreases n,
{
    if n < 10 {
        seq![digit_char(n as int)]
    } else {
        decimal(n / 10).push(digit_char((n % 10) as int))
    }
}

/// `decimal(n)` left-padded with `'0'` to at least `width` characters, the
/// way `format!("{:0width$}", n)` renders an unsigned value.
pub open spec fn zero_padded(n: nat, width: nat) -> Seq<char> {
    let digits = decimal(n);
    if digits.len() < width {
        Seq::new((width - digits.len()) as nat, |_i: int| '0') + digits
    } else {
        digits
    }
}

/// A signed value rendered like `format!("{:0width$}", v)`: the sign counts

/// The digit character of `d < 10` reads back as `d`.
pub proof fn lemma_digit_char_value(d: int)
    requires
        0 <= d < 10,
    ensures
        digit_char(d) as int == 48 + d,
        is_ascii_digit(digit_char(d)),
{
}

/// Two-digit zero padding of `n < 100` is its tens digit then its units
/// digit, and reads back as `n`.
pub proof fn lemma_zero_padded_two(n: nat)
    requires
        n < 100,
    ensures
        zero_padded(n, 2) == seq![digit_char((n / 10) as int), digit_char((n % 10) as int)],
        all_ascii_digits(zero_padded(n, 2)),
        digits_value(zero_padded(n, 2)) == n,
{
    reveal_with_fuel(decimal, 3);
    let a = digit_char((n / 10) as int);
    let b = digit_char((n % 10) as int);
    if n < 10 {
        assert(decimal(n) == seq![digit_char(n as int)]);
        assert(zero_padded(n, 2) =~= seq![a, b]);
    } else {
        assert(decimal(n / 10) == seq![a]);
        assert(decimal(n) =~= seq![a, b]);
    }
    lemma_digit_char_value((n / 10) as int);
    lemma_digit_char_value((n % 10) as int);
    let s = seq![a, b];
    assert(s.drop_last() =~= seq![a]);
    assert(seq![a].drop_last() =~= Seq::<char>::empty());
    reveal_with_fuel(digits_value, 3);
}

/// Four-digit zero padding of `n < 10000` is its four digits, most
/// significant first, and reads back as `n`.
pub proof fn lemma_zero_padded_four(n: nat)
    requires
        n < 10000,
    ensures
        zero_padded(n, 4) == seq![
            digit_char((n / 1000) as int),
            digit_char((n / 100 % 10) as int),
            digit_char((n / 10 % 10) as int),
            digit_char((n % 10) as int),
        ],
        all_ascii_digits(zero_padded(n, 4)),
        digits_value(zero_padded(n, 4)) == n,
{
    reveal_with_fuel(decimal, 5);
    let a = digit_char((n / 1000) as int);
    let b = digit_char((n / 100 % 10) as int);
    let c = digit_char((n / 10 % 10) as int);
    let d = digit_char((n % 10) as int);
    if n < 10 {
        assert(decimal(n) == seq![d]);
        assert(zero_padded(n, 4) =~= seq![a, b, c, d]);
    } else if n < 100 {
        assert(decimal(n / 10) == seq![c]);
        assert(decimal(n) =~= seq![c, d]);
        assert(zero_padded(n, 4) =~= seq![a, b, c, d]);
    } else if n < 1000 {
        assert(decimal(n / 100) == seq![b]);
        assert(decimal(n / 10) =~= seq![b, c]);
        assert(decimal(n) =~= seq![b, c, d]);
        assert(zero_padded(n, 4) =~= seq![a, b, c, d]);
    } else {
        assert(decimal(n / 1000) == seq![a]);
        assert(decimal(n / 100) =~= seq![a, b]);
        assert(decimal(n / 10) =~= seq![a, b, c]);
        assert(decimal(n) =~= seq![a, b, c, d]);
    }
    lemma_digit_char_value((n / 1000) as int);
    lemma_digit_char_value((n / 100 % 10) as int);
    lemma_digit_char_value((n / 10 % 10) as int);
    lemma_digit_char_value((n % 10) as int);
    let s = seq![a, b, c, d];
    assert(s.drop_last() =~= seq![a, b, c]);
    assert(seq![a, b, c].drop_last() =~= seq![a, b]);
    assert(seq![a, b].drop_last() =~= seq![a]);
    assert(seq![a].drop_last() =~= Seq::<char>::empty());
    reveal_with_fuel(digits_value, 5);
}

/// towards the width and the zeros go between sign and digits.
pub open spec fn signed_zero_padded(v: int, width: nat) -> Seq<char> {
    if v < 0 {
        seq!['-'] + zero_padded((-v) as nat, if width > 0 { (width - 1) as nat } else { 0 })
    } else {
        zero_padded(v as nat, width)
    }
}

fn digit_str(d: u64) -> (s: &'static str)
    requires
        d < 10,
    ensures
        s@ == seq![digit_char(d as int)],
{
    proof {
        reveal_strlit("0");
        reveal_strlit("1");
        reveal_strlit("2");
        reveal_strlit("3");
        reveal_strlit("4");
        reveal_strlit("5");
        reveal_strlit("6");
        reveal_strlit("7");
        reveal_strlit("8");
        reveal_strlit("9");
    }
    let s = if d == 0 {
        "0"
    } else if d == 1 {
        "1"
    } else if d == 2 {
        "2"
    } else if d == 3 {
        "3"
    } else if d == 4 {
        "4"
    } else if d == 5 {
        "5"
    } else if d == 6 {
        "6"
    } else if d == 7 {
        "7"
    } else if d == 8 {
        "8"
    } else {
        "9"
    };
    assert(s@ =~= seq![digit_char(d as int)]);
    s
}

/// Append the decimal digits of `n`.
pub fn push_decimal(out: &mut String, n: u64)
    ensures
        final(out)@ == old(out)@ + decimal(n as nat),
    decreases n,
{
    if n >= 10 {
        push_decimal(out, n / 10);
    }
    out.append(digit_str(n % 10));
    proof {
        if n >= 10 {
            assert(decimal(n as nat) == decimal((n / 10) as nat).push(digit_char((n % 10) as int)));
        }
    }
    assert(final(out)@ =~= old(out)@ + decimal(n as nat));
}

fn decimal_len(n: u64) -> (len: usize)
    ensures
        len == decimal(n as nat).len(),
        len <= 20,
    decreases n,
{
    if n < 10 {
        1
    } else {
        proof {
            lemma_decimal_len_bound((n / 10) as nat);
        }
        decimal_len(n / 10) + 1
    }
}

proof fn lemma_decimal_len_bound(n: nat)
    requires
        n <= 1_844_674_407_370_955_161int,
    ensures
        decimal(n).len() <= 19,
    decreases n,
{
    reveal_with_fuel(pow10, 20);
    lemma_decimal_len_small(n, 18);
}

proof fn lemma_decimal_len_small(n: nat, k: nat)
    requires
        n < pow10(k + 1),
    ensures
        decimal(n).len() <= k + 1,
    decreases n,
{
    if n >= 10 {
        if k == 0 {
            assert(pow10(1) == 10 * pow10(0));
        } else {
            assert(pow10(k + 1) == 10 * pow10(k));
            lemma_decimal_len_small(n / 10, (k - 1) as nat);
        }
    }
}

/// Append `n` zero-padded to at least `width` characters.
pub fn push_zero_padded(out: &mut String, n: u64, width: usize)
    ensures
        final(out)@ == old(out)@ + zero_padded(n as nat, width as nat),
{
    let len = decimal_len(n);
    let ghost start = out@;
    if len < width {
        let mut i: usize = 0;
        while i < width - len
            invariant
                i <= width - len,
                len < width,
                out@ == start + Seq::new(i as nat, |_j: int| '0'),
            decreases width - len - i,
        {
            out.append("0");
            proof {
                reveal_strlit("0");
            }
            assert(out@ =~= start + Seq::new((i + 1) as nat, |_j: int| '0'));
            i = i + 1;
        }
    }
    push_decimal(out, n);
    assert(final(out)@ =~= old(out)@ + zero_padded(n as nat, width as nat));
}

/// Append the signed value `v` rendered like `format!("{:0width$}", v)`.
pub fn push_signed_zero_padded(out: &mut String, v: i64, width: usize)
    ensures
        final(out)@ == old(out)@ + signed_zero_padded(v as int, width as nat),
{
    if v < 0 {
        out.append("-");
        proof {
            reveal_strlit("-");
        }
        let magnitude = (0i128 - v as i128) as u64;
        push_zero_padded(out, magnitude, if width > 0 { width - 1 } else { 0 });
        assert(final(out)@ =~= old(out)@ + signed_zero_padded(v as int, width as nat));
    } else {
        push_zero_padded(out, v as u64, width);
    }
}


// ---------------------------------------------------------------------------
// Trimming

/// `s` without any trailing run of `c`.
pub open spec fn trim_end_char(s: Seq<char>, c: char) -> Seq<char>
    decreases s.len(),
{
    if s.len() > 0 && s.last() == c {
        trim_end_char(s.drop_last(), c)
    } else {
        s
    }
}

/// `s.trim_end_matches(c)`.
pub fn trim_end_matches_char(s: &str, c: char) -> (r: &str)
    ensures
        r@ == trim_end_char(s@, c),
{
    let mut end = s.unicode_len();
    assert(s@.subrange(0, end as int) =~= s@);
    while end > 0 && s.get_char(end - 1) == c
        invariant
            end <= s@.len(),
            trim_end_char(s@.subrange(0, end as int), c) == trim_end_char(s@, c),
        decreases end,
    {
        assert(s@.subrange(0, end as int).drop_last() =~= s@.subrange(0, end - 1));
        end = end - 1;
    }
    assert(s@.subrange(0, end as int) =~= s@.subrange(0, end as int));
    s.substring_char(0, end)
}


// ---------------------------------------------------------------------------
// Searching and splitting

/// Index of the first `c` in `s`, if any.
pub open spec fn first_index_of(s: Seq<char>, c: char) -> Option<int>
    decreases s.len(),
{
    if s.len() == 0 {
        None
    } else if s[0] == c {
        Some(0)
    } else {
        match first_index_of(s.drop_first(), c) {
            Some(i) => Some(i + 1),
            None => None,
        }
    }
}

/// `s.splitn(n, c)` for `n >= 1`: at most `n` pieces, the last one holding
/// the unsplit remainder.
pub open spec fn splitn_chars(s: Seq<char>, n: nat, c: char) -> Seq<Seq<char>>
    decreases n,
{
    if n <= 1 {
        seq![s]
    } else {
        match first_index_of(s, c) {
            Some(i) => seq![s.take(i)] + splitn_chars(s.skip(i + 1), (n - 1) as nat, c),
            None => seq![s],
        }
    }
}

pub proof fn lemma_first_index_of(s: Seq<char>, c: char, i: int)
    requires
        0 <= i <= s.len(),
        forall|j: int| 0 <= j < i ==> s[j] != c,
        i < s.len() ==> s[i] == c,
    ensures
        first_index_of(s, c) == (if i < s.len() { Some(i) } else { None::<int> }),
    decreases s.len(),
{
    if s.len() > 0 && i > 0 {
        lemma_first_index_of(s.drop_first(), c, i - 1);
    }
}

/// The first index in `from..to` holding `c`, or `to` when there is none.
pub fn find_char(chars: &[char], from: usize, to: usize, c: char) -> (i: usize)
    requires
        from <= to <= chars@.len(),
    ensures
        from <= i <= to,
        forall|j: int| from <= j < i ==> chars@[j] != c,
        i < to ==> chars@[i as int] == c,
        first_index_of(chars@.subrange(from as int, to as int), c) == (if i < to {
            Some(i - from)
        } else {
            None::<int>
        }),
{
    let mut i = from;
    while i < to && chars[i] != c
        invariant
            from <= i <= to <= chars@.len(),
            forall|j: int| from <= j < i ==> chars@[j] != c,
        decreases to - i,
    {
        i = i + 1;
    }
    proof {
        lemma_first_index_of(chars@.subrange(from as int, to as int), c, i - from);
    }
    i
}

/// The pieces of `chars[from..to].splitn(n, c)`, as index ranges.
pub fn splitn_ranges(chars: &[char], from: usize, to: usize, n: usize, c: char) -> (parts: Vec<(usize, usize)>)
    requires
        from <= to <= chars@.len(),
        n >= 1,
    ensures
        parts@.len() == splitn_chars(chars@.subrange(from as int, to as int), n as nat, c).len(),
        forall|k: int| 0 <= k < parts@.len() ==> {
            &&& from <= (#[trigger] parts@[k]).0 <= parts@[k].1 <= to
            &&& chars@.subrange(parts@[k].0 as int, parts@[k].1 as int) == splitn_chars(
                chars@.subrange(from as int, to as int),
                n as nat,
                c,
            )[k]
        },
{
    let mut parts: Vec<(usize, usize)> = Vec::new();
    let mut start = from;
    let mut remaining = n;
    let ghost whole = chars@.subrange(from as int, to as int);
    loop
        invariant_except_break
            from <= start <= to <= chars@.len(),
            1 <= remaining <= n,
            splitn_chars(whole, n as nat, c) == parts@.map_values(
                |p: (usize, usize)| chars@.subrange(p.0 as int, p.1 as int),
            ) + splitn_chars(chars@.subrange(start as int, to as int), remaining as nat, c),
        invariant
            whole == chars@.subrange(from as int, to as int),
            forall|k: int|
                0 <= k < parts@.len() ==> from <= (#[trigger] parts@[k]).0 <= parts@[k].1 <= to,
        ensures
            splitn_chars(whole, n as nat, c) == parts@.map_values(
                |p: (usize, usize)| chars@.subrange(p.0 as int, p.1 as int),
            ),
        decreases remaining,
    {
        let ghost rest = chars@.subrange(start as int, to as int);
        let ghost before = parts@;
        if remaining <= 1 {
            parts.push((start, to));
            assert(splitn_chars(rest, remaining as nat, c) == seq![rest]);
            assert(parts@.map_values(|p: (usize, usize)| chars@.subrange(p.0 as int, p.1 as int))
                =~= before.map_values(|p: (usize, usize)| chars@.subrange(p.0 as int, p.1 as int))
                + seq![rest]);
            break;
        }
        let i = find_char(chars, start, to, c);
        if i == to {
            parts.push((start, to));
            assert(splitn_chars(rest, remaining as nat, c) == seq![rest]);
            assert(parts@.map_values(|p: (usize, usize)| chars@.subrange(p.0 as int, p.1 as int))
                =~= before.map_values(|p: (usize, usize)| chars@.subrange(p.0 as int, p.1 as int))
                + seq![rest]);
            break;
        }
        parts.push((start, i));
        assert(parts@.map_values(|p: (usize, usize)| chars@.subrange(p.0 as int, p.1 as int))
            =~= before.map_values(|p: (usize, usize)| chars@.subrange(p.0 as int, p.1 as int))
            + seq![chars@.subrange(start as int, i as int)]);
        proof {
            assert(rest.take(i - start) =~= chars@.subrange(start as int, i as int));
            assert(rest.skip(i - start + 1) =~= chars@.subrange(i + 1, to as int));
        }
        start = i + 1;
        remaining = remaining - 1;
    }
    proof {
        let ghost views = parts@.map_values(|p: (usize, usize)| chars@.subrange(p.0 as int, p.1 as int));
        assert forall|k: int| 0 <= k < parts@.len() implies chars@.subrange(
            (#[trigger] parts@[k]).0 as int,
            parts@[k].1 as int,
        ) == splitn_chars(whole, n as nat, c)[k] by {
            assert(views[k] == chars@.subrange(parts@[k].0 as int, parts@[k].1 as int));
        }
    }
    parts
}


/// Index of the last `c` in `s`, if any.
pub open spec fn last_index_of(s: Seq<char>, c: char) -> Option<int>
    decreases s.len(),
{
    if s.len() == 0 {
        None
    } else if s.last() == c {
        Some(s.len() - 1)
    } else {
        last_index_of(s.drop_last(), c)
    }
}

/// What follows the last `c` of `s` (all of `s` when there is none): the
/// first item of `s.rsplit(c)`.
pub open spec fn after_last(s: Seq<char>, c: char) -> Seq<char> {
    match last_index_of(s, c) {
        Some(i) => s.skip(i + 1),
        None => s,
    }
}

pub proof fn lemma_last_index_in_range(s: Seq<char>, c: char)
    ensures
        last_index_of(s, c) matches Some(i) ==> 0 <= i < s.len() && s[i] == c,
    decreases s.len(),
{
    if s.len() > 0 && s.last() != c {
        lemma_last_index_in_range(s.drop_last(), c);
    }
}

/// The index of the last `c` in `chars`, if any.
pub fn rfind_char(chars: &[char], c: char) -> (r: Option<usize>)
    ensures
        r == (match last_index_of(chars@, c) {
            Some(i) => Some(i as usize),
            None => None::<usize>,
        }),
        r matches Some(i) ==> i < chars@.len(),
{
    let mut i = chars.len();
    assert(chars@.subrange(0, i as int) =~= chars@);
    while i > 0 && chars[i - 1] != c
        invariant
            i <= chars@.len(),
            last_index_of(chars@, c) == last_index_of(chars@.subrange(0, i as int), c),
        decreases i,
    {
        assert(chars@.subrange(0, i as int).drop_last() =~= chars@.subrange(0, i - 1));
        i = i - 1;
    }
    proof {
        assert(chars@.subrange(0, chars@.len() as int) =~= chars@);
    }
    if i == 0 {
        assert(chars@.subrange(0, 0) =~= Seq::<char>::empty());
        None
    } else {
        assert(chars@.subrange(0, i as int).last() == c);
        Some(i - 1)
    }
}

/// The characters of `s` after its last `c` (all of it when there is none).
pub fn str_after_last<'a>(s: &'a str, c: char) -> (r: &'a str)
    ensures
        r@ == after_last(s@, c),
{
    let chars = chars_of(s);
    let n = chars.len();
    let found = rfind_char(chars.as_slice(), c);
    proof {
        lemma_last_index_in_range(s@, c);
    }
    assert(found is Some ==> found.unwrap() < chars@.len());
    match found {
        Some(i) => {
            assert(i < chars@.len());
            assert(s@.skip(i + 1) =~= s@.subrange(i + 1, s@.len() as int));
            let r = s.substring_char(i + 1, n);
            assert(r@ == after_last(s@, c));
            r
        },
        None => {
            assert(s@.subrange(0, s@.len() as int) =~= s@);
            s.substring_char(0, chars.len())
        },
    }
}


// ---------------------------------------------------------------------------
// Splitting on every separator, white space, trimming

/// The views of a list of strings.
pub open spec fn strings_view(v: Seq<String>) -> Seq<Seq<char>> {
    v.map_values(|x: String| x@)
}

/// `s.split(c)`: the pieces between the occurrences of `c`, empty ones
/// included (always at least one piece).
pub open spec fn split_all(s: Seq<char>, c: char) -> Seq<Seq<char>>
    decreases s.len(),
{
    if s.len() == 0 {
        seq![Seq::empty()]
    } else if s.last() == c {
        split_all(s.drop_last(), c).push(Seq::empty())
    } else {
        let p = split_all(s.drop_last(), c);
        p.update(p.len() - 1, p.last().push(s.last()))
    }
}

pub proof fn lemma_split_all_nonempty(s: Seq<char>, c: char)
    ensures
        split_all(s, c).len() >= 1,
    decreases s.len(),
{
    if s.len() > 0 {
        lemma_split_all_nonempty(s.drop_last(), c);
    }
}

/// `char::is_whitespace`: the Unicode `White_Space` property.
pub open spec fn is_white_space(c: char) -> bool {
    ('\t' <= c <= '\r') || c == ' ' || c == '\u{85}' || c == '\u{a0}' || c == '\u{1680}'
        || ('\u{2000}' <= c <= '\u{200a}') || c == '\u{2028}' || c == '\u{2029}' || c == '\u{202f}'
        || c == '\u{205f}' || c == '\u{3000}'
}

pub fn char_is_white_space(c: char) -> (b: bool)
    ensures
        b == is_white_space(c),
{
    ('\t' <= c && c <= '\r') || c == ' ' || c == '\u{85}' || c == '\u{a0}' || c == '\u{1680}'
        || ('\u{2000}' <= c && c <= '\u{200a}') || c == '\u{2028}' || c == '\u{2029}' || c
        == '\u{202f}' || c == '\u{205f}' || c == '\u{3000}'
}

/// `s` without leading white space.
pub open spec fn trim_start_ws(s: Seq<char>) -> Seq<char>
    decreases s.len(),
{
    if s.len() > 0 && is_white_space(s[0]) {
        trim_start_ws(s.drop_first())
    } else {
        s
    }
}

/// `s` without trailing white space.
pub open spec fn trim_end_ws(s: Seq<char>) -> Seq<char>
    decreases s.len(),
{
    if s.len() > 0 && is_white_space(s.last()) {
        trim_end_ws(s.drop_last())
    } else {
        s
    }
}

/// `str::trim`: `s` without leading or trailing white space.
pub open spec fn trim_ws(s: Seq<char>) -> Seq<char> {
    trim_end_ws(trim_start_ws(s))
}

pub proof fn lemma_trim_start(s: Seq<char>, k: int)
    requires
        0 <= k <= s.len(),
        forall|j: int| 0 <= j < k ==> is_white_space(#[trigger] s[j]),
        k < s.len() ==> !is_white_space(s[k]),
    ensures
        trim_start_ws(s) == s.skip(k),
    decreases k,
{
    if k > 0 {
        assert forall|j: int| 0 <= j < k - 1 implies is_white_space(#[trigger] s.drop_first()[j]) by {
            assert(s.drop_first()[j] == s[j + 1]);
        }
        lemma_trim_start(s.drop_first(), k - 1);
        assert(s.drop_first().skip(k - 1) =~= s.skip(k));
    } else {
        assert(s.skip(0) =~= s);
    }
}

pub proof fn lemma_trim_end(s: Seq<char>, m: int)
    requires
        0 <= m <= s.len(),
        forall|j: int| m <= j < s.len() ==> is_white_space(#[trigger] s[j]),
        m > 0 ==> !is_white_space(s[m - 1]),
    ensures
        trim_end_ws(s) == s.take(m),
    decreases s.len() - m,
{
    if m < s.len() {
        assert forall|j: int| m <= j < s.drop_last().len() implies is_white_space(#[trigger] s.drop_last()[j]) by {
            assert(s.drop_last()[j] == s[j]);
        }
        lemma_trim_end(s.drop_last(), m);
        assert(s.drop_last().take(m) =~= s.take(m));
    } else {
        assert(s.take(m) =~= s);
    }
}

/// The bounds of `chars[from..to]` with white space trimmed off both ends.
pub fn trimmed_range(chars: &[char], from: usize, to: usize) -> (r: (usize, usize))
    requires
        from <= to <= chars@.len(),
    ensures
        from <= r.0 <= r.1 <= to,
        chars@.subrange(r.0 as int, r.1 as int) == trim_ws(chars@.subrange(from as int, to as int)),
{
    let ghost piece = chars@.subrange(from as int, to as int);
    let mut a = from;
    while a < to && char_is_white_space(chars[a])
        invariant
            from <= a <= to <= chars@.len(),
            forall|j: int| from <= j < a ==> is_white_space(#[trigger] chars@[j]),
        decreases to - a,
    {
        a = a + 1;
    }
    let mut b = to;
    while b > a && char_is_white_space(chars[b - 1])
        invariant
            from <= a <= b <= to <= chars@.len(),
            forall|j: int| b <= j < to ==> is_white_space(#[trigger] chars@[j]),
        decreases b - a,
    {
        b = b - 1;
    }
    proof {
        assert forall|j: int| 0 <= j < a - from implies is_white_space(#[trigger] piece[j]) by {
            assert(piece[j] == chars@[from + j]);
        }
        lemma_trim_start(piece, a - from);
        let rest = piece.skip(a - from);
        assert(rest =~= chars@.subrange(a as int, to as int));
        assert forall|j: int| b - a <= j < rest.len() implies is_white_space(#[trigger] rest[j]) by {
            assert(rest[j] == chars@[a + j]);
        }
        lemma_trim_end(rest, b - a);
        assert(rest.take(b - a) =~= chars@.subrange(a as int, b as int));
    }
    (a, b)
}

/// The non-empty trimmed pieces of a list of pieces, in order.
pub open spec fn keep_trimmed(pieces: Seq<Seq<char>>) -> Seq<Seq<char>>
    decreases pieces.len(),
{
    if pieces.len() == 0 {
        Seq::empty()
    } else {
        keep_trimmed(pieces.drop_last()) + (if trim_ws(pieces.last()).len() > 0 {
            seq![trim_ws(pieces.last())]
        } else {
            Seq::empty()
        })
    }
}

/// `s.split(c).map(str::trim).filter(|p| !p.is_empty())`.
pub open spec fn split_trimmed(s: Seq<char>, c: char) -> Seq<Seq<char>> {
    keep_trimmed(split_all(s, c))
}

/// The pieces of `s` between occurrences of `c`, each trimmed of white
/// space, empty ones dropped.
pub fn split_trimmed_pieces(s: &str, c: char) -> (v: Vec<String>)
    ensures
        strings_view(v@) == split_trimmed(s@, c),
{
    let chars = chars_of(s);
    let n = chars.len();
    let mut out: Vec<String> = Vec::new();
    let mut start: usize = 0;
    let mut i: usize = 0;
    let ghost mut done: Seq<Seq<char>> = Seq::empty();
    assert(chars@.take(0) =~= Seq::<char>::empty());
    assert(chars@.subrange(0, 0) =~= Seq::<char>::empty());
    assert(split_all(chars@.take(0), c) =~= done.push(chars@.subrange(0, 0)));
    while i < n
        invariant
            n == chars@.len(),
            chars@ == s@,
            start <= i <= n,
            split_all(chars@.take(i as int), c) == done.push(chars@.subrange(start as int, i as int)),
            strings_view(out@) == keep_trimmed(done),
        decreases n - i,
    {
        let ghost prefix = chars@.take(i as int + 1);
        assert(prefix.drop_last() =~= chars@.take(i as int));
        assert(prefix.last() == chars@[i as int]);
        if chars[i] == c {
            let (a, b) = trimmed_range(chars.as_slice(), start, i);
            let ghost o0 = strings_view(out@);
            let ghost piece = chars@.subrange(start as int, i as int);
            assert(done.push(piece).drop_last() =~= done);
            if a < b {
                let t = String::from_str(s.substring_char(a, b));
                out.push(t);
                assert(strings_view(out@) =~= o0.push(trim_ws(piece)));
            } else {
                assert(strings_view(out@) =~= o0);
            }
            proof {
                done = done.push(piece);
            }
            start = i + 1;
            assert(chars@.subrange(start as int, i as int + 1) =~= Seq::<char>::empty());
        } else {
            let ghost p = done.push(chars@.subrange(start as int, i as int));
            assert(chars@.subrange(start as int, i as int).push(chars@[i as int]) =~= chars@.subrange(
                start as int,
                i as int + 1,
            ));
            assert(p.update(p.len() - 1, p.last().push(chars@[i as int])) =~= done.push(
                chars@.subrange(start as int, i as int + 1),
            ));
        }
        i = i + 1;
    }
    assert(chars@.take(n as int) =~= chars@);
    let (a, b) = trimmed_range(chars.as_slice(), start, n);
    let ghost o0 = strings_view(out@);
    let ghost piece = chars@.subrange(start as int, n as int);
    assert(done.push(piece).drop_last() =~= done);
    if a < b {
        let t = String::from_str(s.substring_char(a, b));
        out.push(t);
        assert(strings_view(out@) =~= o0.push(trim_ws(piece)));
    } else {
        assert(strings_view(out@) =~= o0);
    }
    out
}


// ---------------------------------------------------------------------------
// ASCII case

/// `char::to_ascii_lowercase`.
pub open spec fn ascii_lower(c: char) -> char {
    if 'A' <= c <= 'Z' {
        ((c as u32) + 32) as char
    } else {
        c
    }
}

/// `str::eq_ignore_ascii_case`: equal after ASCII lowercasing.
pub open spec fn eq_ignore_ascii_case_spec(a: Seq<char>, b: Seq<char>) -> bool {
    a.len() == b.len() && forall|i: int| 0 <= i < a.len() ==> ascii_lower(#[trigger] a[i]) == ascii_lower(b[i])
}

fn to_ascii_lower(c: char) -> (r: char)
    ensures
        r == ascii_lower(c),
{
    if 'A' <= c && c <= 'Z' {
        let u = (c as u32) + 32;
        assert(0x61 <= u <= 0x7a);
        char_from_ascii(u)
    } else {
        c
    }
}

fn char_from_ascii(u: u32) -> (c: char)
    requires
        u < 128,
    ensures
        c == u as char,
{
    let b: u8 = u as u8;
    b as char
}

/// Whether `a` and `b` are equal ignoring ASCII case.
pub fn eq_ignore_ascii_case(a: &str, b: &str) -> (r: bool)
    ensures
        r == eq_ignore_ascii_case_spec(a@, b@),
{
    let x = chars_of(a);
    let y = chars_of(b);
    if x.len() != y.len() {
        return false;
    }
    let n = x.len();
    let mut i: usize = 0;
    while i < n
        invariant
            n == x@.len(),
            n == y@.len(),
            x@ == a@,
            y@ == b@,
            i <= n,
            forall|j: int| 0 <= j < i ==> ascii_lower(#[trigger] x@[j]) == ascii_lower(y@[j]),
        decreases n - i,
    {
        if to_ascii_lower(x[i]) != to_ascii_lower(y[i]) {
            return false;
        }
        i = i + 1;
    }
    true
}

} // verus!
