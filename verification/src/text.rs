//! Scanning of header text: blanks, separators, and the first place where a
//! byte occurs.

use vstd::prelude::*;

verus! {

/// The space character.
pub const SPACE: u8 = 0x20;

/// The horizontal tab.
pub const TAB: u8 = 0x09;

/// The comma, which separates the items of a list.
pub const COMMA: u8 = 0x2c;

/// The hyphen, which separates the two positions of a range-spec.
pub const HYPHEN: u8 = 0x2d;

/// Optional whitespace of a header field: a space or a horizontal tab.
pub open spec fn is_blank(b: u8) -> bool {
    b == SPACE || b == TAB
}

/// A row of blanks, which may be empty.
pub open spec fn is_blank_row(s: Seq<u8>) -> bool {
    forall|i: int| 0 <= i < s.len() ==> is_blank(#[trigger] s[i])
}

/// The position of the first `b` in `s`, or `s.len()` where `s` holds none.
pub open spec fn first_index(s: Seq<u8>, b: u8) -> nat
    decreases s.len(),
{
    if s.len() == 0 || s[0] == b {
        0
    } else {
        1 + first_index(s.drop_first(), b)
    }
}

/// `s` without the blanks at its start.
pub open spec fn trim_start(s: Seq<u8>) -> Seq<u8>
    decreases s.len(),
{
    if s.len() > 0 && is_blank(s[0]) {
        trim_start(s.drop_first())
    } else {
        s
    }
}

/// `s` without the blanks at its end.
pub open spec fn trim_end(s: Seq<u8>) -> Seq<u8>
    decreases s.len(),
{
    if s.len() > 0 && is_blank(s.last()) {
        trim_end(s.drop_last())
    } else {
        s
    }
}

/// `s` without the blanks at either end.
pub open spec fn trim(s: Seq<u8>) -> Seq<u8> {
    trim_end(trim_start(s))
}

/// The first position in `start..end` at which `bytes` holds `needle`, or
/// `end` where it holds none there.
pub fn find_byte(bytes: &[u8], start: usize, end: usize, needle: u8) -> (at: usize)
    requires
        start <= end <= bytes@.len(),
    ensures
        start <= at <= end,
        at - start == first_index(bytes@.subrange(start as int, end as int), needle),
{
    let mut at: usize = start;
    while at < end && bytes[at] != needle
        invariant
            start <= at <= end <= bytes@.len(),
            forall|j: int| start <= j < at ==> bytes@[j] != needle,
        decreases end - at,
    {
        at += 1;
    }
    proof {
        lemma_first_index_is(bytes@.subrange(start as int, end as int), needle, at - start);
    }
    at
}

/// The first position in `start..end` at which `bytes` holds no blank, or
/// `end` where all of it is blank.
pub fn skip_blanks(bytes: &[u8], start: usize, end: usize) -> (at: usize)
    requires
        start <= end <= bytes@.len(),
    ensures
        start <= at <= end,
        bytes@.subrange(at as int, end as int) == trim_start(
            bytes@.subrange(start as int, end as int),
        ),
{
    let mut at: usize = start;
    while at < end && (bytes[at] == SPACE || bytes[at] == TAB)
        invariant
            start <= at <= end <= bytes@.len(),
            forall|j: int| start <= j < at ==> is_blank(bytes@[j]),
        decreases end - at,
    {
        at += 1;
    }
    proof {
        let s = bytes@.subrange(start as int, end as int);
        lemma_trim_start_is(s, at - start);
    }
    at
}

/// The position behind the last byte in `start..end` that is no blank, or
/// `start` where all of it is blank.
pub fn skip_blanks_back(bytes: &[u8], start: usize, end: usize) -> (at: usize)
    requires
        start <= end <= bytes@.len(),
    ensures
        start <= at <= end,
        bytes@.subrange(start as int, at as int) == trim_end(
            bytes@.subrange(start as int, end as int),
        ),
{
    let mut at: usize = end;
    while at > start && (bytes[at - 1] == SPACE || bytes[at - 1] == TAB)
        invariant
            start <= at <= end <= bytes@.len(),
            forall|j: int| at <= j < end ==> is_blank(bytes@[j]),
        decreases at - start,
    {
        at -= 1;
    }
    proof {
        let s = bytes@.subrange(start as int, end as int);
        lemma_trim_end_is(s, at - start);
    }
    at
}

/// `first_index(s, b)` is the one position before which no `b` stands and
/// at which `s` holds `b` or ends.
pub proof fn lemma_first_index_is(s: Seq<u8>, b: u8, i: int)
    requires
        0 <= i <= s.len(),
        forall|j: int| 0 <= j < i ==> s[j] != b,
        i == s.len() || s[i] == b,
    ensures
        first_index(s, b) == i,
    decreases i,
{
    if i > 0 {
        lemma_first_index_is(s.drop_first(), b, i - 1);
    }
}

/// What `first_index(s, b)` points at: no `b` stands before it, and `s`
/// holds `b` there unless `s` ends there.
pub proof fn lemma_first_index_found(s: Seq<u8>, b: u8)
    ensures
        first_index(s, b) <= s.len(),
        forall|j: int| 0 <= j < first_index(s, b) ==> s[j] != b,
        first_index(s, b) < s.len() ==> s[first_index(s, b) as int] == b,
    decreases s.len(),
{
    if s.len() == 0 || s[0] == b {
    } else {
        let rest = s.drop_first();
        lemma_first_index_found(rest, b);
        assert forall|j: int| 0 <= j < first_index(s, b) implies s[j] != b by {
            if j > 0 {
                assert(s[j] == rest[j - 1]);
            }
        }
    }
}

/// `trim_start(s)` starts at the first byte of `s` that is no blank.
pub proof fn lemma_trim_start_is(s: Seq<u8>, from: int)
    requires
        0 <= from <= s.len(),
        forall|j: int| 0 <= j < from ==> is_blank(s[j]),
        from == s.len() || !is_blank(s[from]),
    ensures
        trim_start(s) == s.skip(from),
    decreases from,
{
    if from > 0 {
        lemma_trim_start_is(s.drop_first(), from - 1);
    }
}

/// `trim_end(s)` ends behind the last byte of `s` that is no blank.
pub proof fn lemma_trim_end_is(s: Seq<u8>, to: int)
    requires
        0 <= to <= s.len(),
        forall|j: int| to <= j < s.len() ==> is_blank(s[j]),
        to == 0 || !is_blank(s[to - 1]),
    ensures
        trim_end(s) == s.take(to),
    decreases s.len() - to,
{
    if to < s.len() {
        lemma_trim_end_is(s.drop_last(), to);
    }
}

/// What `trim_start` takes away is a row of blanks at the start of `s`,
/// and what it leaves starts with no blank.
pub proof fn lemma_trim_start_found(s: Seq<u8>)
    ensures
        trim_start(s).len() <= s.len(),
        trim_start(s) == s.skip(s.len() - trim_start(s).len()),
        is_blank_row(s.take(s.len() - trim_start(s).len())),
        trim_start(s).len() > 0 ==> !is_blank(trim_start(s)[0]),
    decreases s.len(),
{
    if s.len() > 0 && is_blank(s[0]) {
        let rest = s.drop_first();
        lemma_trim_start_found(rest);
        let taken = rest.len() - trim_start(rest).len();
        assert forall|i: int| 0 <= i < taken + 1 implies is_blank(
            #[trigger] s.take(taken + 1)[i],
        ) by {
            if i > 0 {
                assert(s.take(taken + 1)[i] == rest.take(taken)[i - 1]);
            }
        }
    }
}

/// What `trim_end` takes away is a row of blanks at the end of `s`, and
/// what it leaves ends with no blank.
pub proof fn lemma_trim_end_found(s: Seq<u8>)
    ensures
        trim_end(s).len() <= s.len(),
        trim_end(s) == s.take(trim_end(s).len() as int),
        is_blank_row(s.skip(trim_end(s).len() as int)),
        trim_end(s).len() > 0 ==> !is_blank(trim_end(s).last()),
    decreases s.len(),
{
    if s.len() > 0 && is_blank(s.last()) {
        let rest = s.drop_last();
        lemma_trim_end_found(rest);
        let left = trim_end(rest).len() as int;
        assert forall|i: int| 0 <= i < s.len() - left implies is_blank(
            #[trigger] s.skip(left)[i],
        ) by {
            if i < rest.len() - left {
                assert(s.skip(left)[i] == rest.skip(left)[i]);
            }
        }
    }
}

/// A row of blanks before a text that starts with no blank is what
/// `trim_start` takes away.
pub proof fn lemma_trim_start_takes_row(row: Seq<u8>, text: Seq<u8>)
    requires
        is_blank_row(row),
        text.len() == 0 || !is_blank(text[0]),
    ensures
        trim_start(row + text) == text,
{
    lemma_trim_start_is(row + text, row.len() as int);
}

/// A row of blanks behind a text that ends with no blank is what
/// `trim_end` takes away.
pub proof fn lemma_trim_end_takes_row(text: Seq<u8>, row: Seq<u8>)
    requires
        is_blank_row(row),
        text.len() == 0 || !is_blank(text.last()),
    ensures
        trim_end(text + row) == text,
{
    lemma_trim_end_is(text + row, text.len() as int);
}

} // verus!
