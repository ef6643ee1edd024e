//! Parsing an HRRR `.idx` sidecar (one `N:offset:d=YYYYMMDDHH:VAR:LEVEL:step:`
//! line per GRIB2 message) and computing the byte range of one message.

use vstd::prelude::*;
use crate::hrrr_error::HrrrError;
use crate::text::{
    chars_of, find_char, first_index_of, parse_unsigned, parse_unsigned_field, splitn_chars,
    splitn_ranges, str_eq, trim_end_char,
};

verus! {

/// One parsed line of a `.idx` file.
#[derive(Debug, Clone, PartialEq, Eq)]
pub struct IdxEntry {
    /// 1-indexed message number within the GRIB2 file.
    pub message_number: u32,
    /// Byte offset of this message within the file.
    pub offset: u64,
    /// The `d=YYYYMMDDHH` field, verbatim.
    pub reference_time_raw: String,
    pub variable: String,
    pub level: String,
    /// Everything after `level`, verbatim.
    pub rest: String,
}

/// The content of an [`IdxEntry`].
pub ghost struct IdxEntryView {
    pub message_number: u32,
    pub offset: u64,
    pub reference_time_raw: Seq<char>,
    pub variable: Seq<char>,
    pub level: Seq<char>,
    pub rest: Seq<char>,
}

impl View for IdxEntry {
    type V = IdxEntryView;

    open spec fn view(&self) -> IdxEntryView {
        IdxEntryView {
            message_number: self.message_number,
            offset: self.offset,
            reference_time_raw: self.reference_time_raw@,
            variable: self.variable@,
            level: self.level@,
            rest: self.rest@,
        }
    }
}

/// One non-empty `.idx` line, or `None` when it does not have the
/// `N:offset:ref:VAR:LEVEL[:rest]` shape with numeric `N`/`offset` and
/// non-empty `VAR`/`LEVEL`.
pub open spec fn idx_line(line: Seq<char>) -> Option<IdxEntryView> {
    let parts = splitn_chars(line, 6, ':');
    if parts.len() >= 5 && parse_unsigned(parts[0], 0xFFFF_FFFF) is Some && parse_unsigned(
        parts[1],
        0xFFFF_FFFF_FFFF_FFFF,
    ) is Some && parts[3].len() > 0 && parts[4].len() > 0 {
        Some(
            IdxEntryView {
                message_number: parse_unsigned(parts[0], 0xFFFF_FFFF).unwrap() as u32,
                offset: parse_unsigned(parts[1], 0xFFFF_FFFF_FFFF_FFFF).unwrap() as u64,
                reference_time_raw: parts[2],
                variable: parts[3],
                level: parts[4],
                rest: if parts.len() >= 6 { parts[5] } else { Seq::empty() },
            },
        )
    } else {
        None
    }
}

/// The outcome of parsing a whole `.idx` text.
pub ghost enum IdxOutcome {
    Entries(Seq<IdxEntryView>),
    Malformed { line_number: int, line: Seq<char> },
}

pub open spec fn prepend_entries(es: Seq<IdxEntryView>, o: IdxOutcome) -> IdxOutcome {
    match o {
        IdxOutcome::Entries(rest) => IdxOutcome::Entries(es + rest),
        IdxOutcome::Malformed { line_number, line } => IdxOutcome::Malformed { line_number, line },
    }
}

/// The first line of `text` (up to the first `'\n'`) and what follows it.
pub open spec fn split_first_line(text: Seq<char>) -> (Seq<char>, Seq<char>) {
    match first_index_of(text, '\n') {
        Some(i) => (text.take(i), text.skip(i + 1)),
        None => (text, Seq::empty()),
    }
}

/// Parse `text`, whose first line is line `line_number`: lines are split at
/// `'\n'`, trailing `'\r'`s are dropped, empty lines are skipped, and the
/// first malformed line stops the parse.
pub open spec fn idx_parse(text: Seq<char>, line_number: int) -> IdxOutcome
    decreases text.len(),
{
    if text.len() == 0 {
        IdxOutcome::Entries(Seq::empty())
    } else {
        let (segment, rest) = split_first_line(text);
        proof {
            lemma_split_first_line_shorter(text);
        }
        let line = trim_end_char(segment, '\r');
        if line.len() == 0 {
            idx_parse(rest, line_number + 1)
        } else {
            match idx_line(line) {
                None => IdxOutcome::Malformed { line_number, line },
                Some(entry) => prepend_entries(seq![entry], idx_parse(rest, line_number + 1)),
            }
        }
    }
}

pub proof fn lemma_split_first_line_shorter(text: Seq<char>)
    requires
        text.len() > 0,
    ensures
        split_first_line(text).1.len() < text.len(),
{
    match first_index_of(text, '\n') {
        Some(i) => {
            lemma_first_index_in_range(text, '\n');
        },
        None => {},
    }
}

pub proof fn lemma_first_index_in_range(s: Seq<char>, c: char)
    ensures
        first_index_of(s, c) matches Some(i) ==> 0 <= i < s.len() && s[i] == c,
    decreases s.len(),
{
    if s.len() > 0 && s[0] != c {
        lemma_first_index_in_range(s.drop_first(), c);
    }
}

/// The lines of `text` as `.idx` parsing reads them: split at `'\n'` (no
/// empty line after a final `'\n'`), each with its trailing `'\r'`s
/// dropped. Line `i` of this sequence is line number `i + 1` of the file.
pub open spec fn idx_lines(text: Seq<char>) -> Seq<Seq<char>>
    decreases text.len(),
{
    if text.len() == 0 {
        Seq::empty()
    } else {
        let (segment, rest) = split_first_line(text);
        proof {
            lemma_split_first_line_shorter(text);
        }
        seq![trim_end_char(segment, '\r')] + idx_lines(rest)
    }
}

/// The entry of a line: none for a blank line, else its parse.
pub open spec fn idx_entry_of_line(line: Seq<char>) -> Option<IdxEntryView> {
    if line.len() == 0 {
        None
    } else {
        idx_line(line)
    }
}

/// A line that stops the parse: not blank and not of the `.idx` shape.
pub open spec fn is_malformed_idx_line(line: Seq<char>) -> bool {
    line.len() > 0 && idx_line(line) is None
}

proof fn lemma_filter_map_prepend<A, B>(x: A, rest: Seq<A>, f: spec_fn(A) -> Option<B>)
    ensures
        (seq![x] + rest).filter_map(f) == (match f(x) {
            Some(v) => seq![v],
            None => Seq::<B>::empty(),
        }) + rest.filter_map(f),
    decreases rest.len(),
{
    let head = match f(x) {
        Some(v) => seq![v],
        None => Seq::<B>::empty(),
    };
    if rest.len() == 0 {
        assert(seq![x] + rest =~= seq![x]);
        let s = seq![x];
        assert(s.drop_last() =~= Seq::<A>::empty());
        assert(s.drop_last().filter_map(f) =~= Seq::<B>::empty());
        assert(head + rest.filter_map(f) =~= head);
        match f(x) {
            Some(v) => assert(Seq::<B>::empty() + seq![v] =~= seq![v]),
            None => {},
        }
    } else {
        lemma_filter_map_prepend(x, rest.drop_last(), f);
        let s = seq![x] + rest;
        assert(s.drop_last() =~= seq![x] + rest.drop_last());
        assert(s.last() == rest.last());
        match f(rest.last()) {
            Some(v) => {
                assert((head + rest.drop_last().filter_map(f)) + seq![v] =~= head + (rest.drop_last().filter_map(f)
                    + seq![v]));
            },
            None => {},
        }
    }
}

proof fn lemma_idx_parse_from(text: Seq<char>, n: int)
    ensures
        (forall|i: int| 0 <= i < idx_lines(text).len() ==> !is_malformed_idx_line(#[trigger] idx_lines(text)[i]))
            ==> idx_parse(text, n) == IdxOutcome::Entries(
            idx_lines(text).filter_map(|l: Seq<char>| idx_entry_of_line(l)),
        ),
        forall|k: int|
            0 <= k < idx_lines(text).len() && is_malformed_idx_line(#[trigger] idx_lines(text)[k]) && (forall|j: int|
                0 <= j < k ==> !is_malformed_idx_line(#[trigger] idx_lines(text)[j])) ==> idx_parse(text, n)
                == (IdxOutcome::Malformed { line_number: n + k, line: idx_lines(text)[k] }),
    decreases text.len(),
{
    let f = |l: Seq<char>| idx_entry_of_line(l);
    let lines = idx_lines(text);
    if text.len() == 0 {
        assert(lines =~= Seq::<Seq<char>>::empty());
        assert(lines.filter_map(f) =~= Seq::<IdxEntryView>::empty());
    } else {
        let (segment, rest) = split_first_line(text);
        lemma_split_first_line_shorter(text);
        let line = trim_end_char(segment, '\r');
        let tail = idx_lines(rest);
        lemma_idx_parse_from(rest, n + 1);
        assert(lines == seq![line] + tail);
        assert(lines[0] == line);
        assert forall|i: int| 0 <= i < tail.len() implies lines[i + 1] == tail[i] by {}
        lemma_filter_map_prepend(line, tail, f);
        if forall|i: int| 0 <= i < lines.len() ==> !is_malformed_idx_line(#[trigger] lines[i]) {
            assert forall|i: int| 0 <= i < tail.len() implies !is_malformed_idx_line(#[trigger] tail[i]) by {
                assert(!is_malformed_idx_line(lines[i + 1]));
            }
            assert(!is_malformed_idx_line(lines[0]));
            if line.len() == 0 {
                assert(Seq::<IdxEntryView>::empty() + tail.filter_map(f) =~= tail.filter_map(f));
            } else {
                let e = idx_line(line)->Some_0;
                assert(prepend_entries(seq![e], idx_parse(rest, n + 1)) == IdxOutcome::Entries(
                    seq![e] + tail.filter_map(f),
                ));
            }
        }
        assert forall|k: int|
            0 <= k < lines.len() && is_malformed_idx_line(#[trigger] lines[k]) && (forall|j: int|
                0 <= j < k ==> !is_malformed_idx_line(#[trigger] lines[j])) implies idx_parse(text, n)
                == (IdxOutcome::Malformed { line_number: n + k, line: lines[k] }) by {
            if k > 0 {
                assert(!is_malformed_idx_line(lines[0]));
                assert(tail[k - 1] == lines[k]);
                assert forall|j: int| 0 <= j < k - 1 implies !is_malformed_idx_line(#[trigger] tail[j]) by {
                    assert(!is_malformed_idx_line(lines[j + 1]));
                }
                assert(idx_parse(rest, n + 1) == (IdxOutcome::Malformed { line_number: n + 1 + (k - 1), line: tail[k - 1] }));
            }
        }
    }
}

/// What parsing a whole `.idx` text gives, line by line: when no line is
/// malformed, one entry per non-blank line, in file order (blank lines
/// never fail); otherwise the error names the first malformed line, with
/// its 1-based line number.
pub proof fn lemma_idx_parse_law(text: Seq<char>)
    ensures
        (forall|i: int| 0 <= i < idx_lines(text).len() ==> !is_malformed_idx_line(#[trigger] idx_lines(text)[i]))
            ==> idx_parse(text, 1) == IdxOutcome::Entries(
            idx_lines(text).filter_map(|l: Seq<char>| idx_entry_of_line(l)),
        ),
        forall|k: int|
            0 <= k < idx_lines(text).len() && is_malformed_idx_line(#[trigger] idx_lines(text)[k]) && (forall|j: int|
                0 <= j < k ==> !is_malformed_idx_line(#[trigger] idx_lines(text)[j])) ==> idx_parse(text, 1)
                == (IdxOutcome::Malformed { line_number: k + 1, line: idx_lines(text)[k] }),
{
    lemma_idx_parse_from(text, 1);
}

proof fn lemma_prepend_nothing(o: IdxOutcome)
    ensures
        prepend_entries(Seq::empty(), o) == o,
{
    match o {
        IdxOutcome::Entries(rest) => {
            assert(Seq::<IdxEntryView>::empty() + rest =~= rest);
        },
        _ => {},
    }
}

proof fn lemma_prepend_twice(a: Seq<IdxEntryView>, b: Seq<IdxEntryView>, o: IdxOutcome)
    ensures
        prepend_entries(a, prepend_entries(b, o)) == prepend_entries(a + b, o),
{
    match o {
        IdxOutcome::Entries(rest) => {
            assert(a + (b + rest) =~= (a + b) + rest);
        },
        _ => {},
    }
}

/// Parse the line `chars[from..to]` (already trimmed, non-empty).
fn parse_idx_line(url: &str, text: &str, chars: &Vec<char>, from: usize, to: usize, line_number: usize) -> (r: Result<IdxEntry, HrrrError>)
    requires
        chars@ == text@,
        from < to <= chars@.len(),
    ensures
        match idx_line(chars@.subrange(from as int, to as int)) {
            Some(e) => r is Ok && r.unwrap()@ == e,
            None => r matches Err(HrrrError::MalformedIdxLine { url: u, line_number: n, line: l })
                && u@ == url@ && n == line_number && l@ == chars@.subrange(from as int, to as int),
        },
{
    let ghost line = chars@.subrange(from as int, to as int);
    let parts = splitn_ranges(chars.as_slice(), from, to, 6, ':');
    let ghost spec_parts = splitn_chars(line, 6, ':');
    let malformed = HrrrError::MalformedIdxLine {
        url: String::from_str(url),
        line_number,
        line: String::from_str(text.substring_char(from, to)),
    };
    if parts.len() < 5 {
        return Err(malformed);
    }
    let message_number = match parse_unsigned_field(chars.as_slice(), parts[0].0, parts[0].1, 0xFFFF_FFFF) {
        Some(v) => v as u32,
        None => return Err(malformed),
    };
    let offset = match parse_unsigned_field(chars.as_slice(), parts[1].0, parts[1].1, 0xFFFF_FFFF_FFFF_FFFF) {
        Some(v) => v,
        None => return Err(malformed),
    };
    if parts[3].0 == parts[3].1 || parts[4].0 == parts[4].1 {
        return Err(malformed);
    }
    let reference_time_raw = String::from_str(text.substring_char(parts[2].0, parts[2].1));
    let variable = String::from_str(text.substring_char(parts[3].0, parts[3].1));
    let level = String::from_str(text.substring_char(parts[4].0, parts[4].1));
    let rest = if parts.len() >= 6 {
        String::from_str(text.substring_char(parts[5].0, parts[5].1))
    } else {
        String::new()
    };
    let entry = IdxEntry { message_number, offset, reference_time_raw, variable, level, rest };
    assert(entry@ == idx_line(line).unwrap());
    Ok(entry)
}

/// Parse a `.idx` file's full text into its entries, in file order. `url`
/// only attributes a malformed line to the file it came from.
pub fn parse_idx(url: &str, text: &str) -> (r: Result<Vec<IdxEntry>, HrrrError>)
    ensures
        match idx_parse(text@, 1) {
            IdxOutcome::Entries(es) => r is Ok && r.unwrap()@.map_values(|e: IdxEntry| e@) == es,
            IdxOutcome::Malformed { line_number, line } => r matches Err(
                HrrrError::MalformedIdxLine { url: u, line_number: n, line: l },
            ) && u@ == url@ && n == line_number && l@ == line,
        },
{
    let chars = chars_of(text);
    let mut entries: Vec<IdxEntry> = Vec::new();
    let mut pos: usize = 0;
    let mut line_index: usize = 0;
    proof {
        assert(text@.skip(0) =~= text@);
        assert(entries@.map_values(|e: IdxEntry| e@) =~= Seq::<IdxEntryView>::empty());
        lemma_prepend_nothing(idx_parse(text@, 1));
    }
    while pos < chars.len()
        invariant
            chars@ == text@,
            pos <= chars@.len(),
            line_index <= pos,
            idx_parse(text@, 1) == prepend_entries(
                entries@.map_values(|e: IdxEntry| e@),
                idx_parse(text@.skip(pos as int), line_index + 1),
            ),
        decreases chars@.len() - pos,
    {
        let ghost tail = text@.skip(pos as int);
        let newline = find_char(chars.as_slice(), pos, chars.len(), '\n');
        let mut end = newline;
        while end > pos && chars[end - 1] == '\r'
            invariant
                pos <= end <= newline <= chars@.len(),
                trim_end_char(chars@.subrange(pos as int, end as int), '\r') == trim_end_char(
                    chars@.subrange(pos as int, newline as int),
                    '\r',
                ),
            decreases end,
        {
            assert(chars@.subrange(pos as int, end as int).drop_last() =~= chars@.subrange(
                pos as int,
                end - 1,
            ));
            end = end - 1;
        }
        let ghost segment = chars@.subrange(pos as int, newline as int);
        proof {
            assert(tail =~= chars@.subrange(pos as int, chars@.len() as int));
            assert(segment =~= tail.take(newline - pos));
            if newline < chars.len() {
                assert(split_first_line(tail).0 == segment);
                assert(split_first_line(tail).1 =~= text@.skip(newline + 1));
            } else {
                assert(split_first_line(tail).0 =~= segment);
                assert(split_first_line(tail).1 =~= text@.skip(chars@.len() as int));
            }
            assert(trim_end_char(chars@.subrange(pos as int, end as int), '\r') == chars@.subrange(pos as int, end as int));
        }
        let ghost before = entries@;
        if end > pos {
            let entry = parse_idx_line(url, text, &chars, pos, end, line_index + 1);
            match entry {
                Ok(e) => {
                    entries.push(e);
                    assert(entries@.map_values(|e: IdxEntry| e@) =~= before.map_values(|e: IdxEntry| e@) + seq![e@]);
                },
                Err(err) => {
                    return Err(err);
                },
            }
        }
        let ghost old_pos = pos;
        let ghost old_index = line_index;
        pos = if newline < chars.len() { newline + 1 } else { chars.len() };
        line_index = line_index + 1;
        proof {
            let line = chars@.subrange(old_pos as int, end as int);
            let next = text@.skip(pos as int);
            assert(split_first_line(tail).1 == next);
            assert(trim_end_char(split_first_line(tail).0, '\r') == line);
            if end > old_pos {
                assert(idx_line(line) is Some);
                let e = idx_line(line).unwrap();
                assert(idx_parse(tail, old_index + 1) == prepend_entries(seq![e], idx_parse(next, old_index + 2)));
                lemma_prepend_twice(before.map_values(|e: IdxEntry| e@), seq![e], idx_parse(next, old_index + 2));
            } else {
                assert(idx_parse(tail, old_index + 1) == idx_parse(next, old_index + 2));
            }
        }
    }
    assert(text@.skip(pos as int) =~= Seq::<char>::empty());
    Ok(entries)
}

/// Find the (first) entry matching `variable`/`level` exactly.
pub fn find_message<'a>(entries: &'a [IdxEntry], variable: &str, level: &str) -> (r: Option<&'a IdxEntry>)
    ensures
        match r {
            Some(e) => exists|i: int|
                0 <= i < entries@.len() && entries@[i] == *e && e.variable@ == variable@
                    && e.level@ == level@ && forall|j: int|
                    0 <= j < i ==> !(entries@[j].variable@ == variable@ && entries@[j].level@
                        == level@),
            None => forall|j: int|
                0 <= j < entries@.len() ==> !(entries@[j].variable@ == variable@
                    && entries@[j].level@ == level@),
        },
{
    let mut i: usize = 0;
    while i < entries.len()
        invariant
            i <= entries@.len(),
            forall|j: int|
                0 <= j < i ==> !(entries@[j].variable@ == variable@ && entries@[j].level@ == level@),
        decreases entries@.len() - i,
    {
        if str_eq(entries[i].variable.as_str(), variable) && str_eq(entries[i].level.as_str(), level) {
            return Some(&entries[i]);
        }
        i = i + 1;
    }
    None
}

/// The half-open byte range `[start, end)` of the message at `position`:
/// up to the next entry's offset, or to `content_length` for the last one.
pub fn byte_range(url: &str, entries: &[IdxEntry], position: usize, content_length: Option<u64>) -> (r: Result<(u64, u64), HrrrError>)
    requires
        position < entries@.len(),
    ensures
        position + 1 < entries@.len() ==> r == Ok::<(u64, u64), HrrrError>(
            (entries@[position as int].offset, entries@[position + 1].offset),
        ),
        position + 1 == entries@.len() ==> match content_length {
            Some(len) => r == Ok::<(u64, u64), HrrrError>((entries@[position as int].offset, len)),
            None => r matches Err(HrrrError::MissingContentLength { url: u }) && u@ == url@,
        },
{
    let start = entries[position].offset;
    if position + 1 < entries.len() {
        Ok((start, entries[position + 1].offset))
    } else {
        match content_length {
            Some(len) => Ok((start, len)),
            None => Err(HrrrError::MissingContentLength { url: String::from_str(url) }),
        }
    }
}

} // verus!
