//! The grammar of the `Range` header field, bytes unit only:
//!
//! ```text
//! header     = "bytes=" item *( "," item )
//! item       = *blank [ range-spec ] *blank
//! range-spec = numeral *blank "-" *blank numeral      ; first-last
//!            / numeral *blank "-"                     ; first-
//!            / "-" *blank numeral                     ; -length
//! numeral    = 1*DIGIT                                ; at most u64::MAX
//! blank      = SP / HTAB
//! ```
//!
//! The whole header matches or none of it does: one item that is neither
//! blank nor a range-spec, or one numeral that does not fit in 64 bits,
//! makes the header unreadable. The header is read byte by byte, a text in
//! its UTF-8 encoding.

use crate::numeral::{is_numeral, numeral_value, parse_numeral};
use crate::text::{
    find_byte, first_index, is_blank, is_blank_row, lemma_first_index_found,
    lemma_first_index_is, lemma_trim_end_found, lemma_trim_end_takes_row,
    lemma_trim_start_found, lemma_trim_start_takes_row, skip_blanks, skip_blanks_back, trim,
    trim_end, trim_start, COMMA, HYPHEN,
};
use vstd::prelude::*;
use vstd::string::StringSliceAdditionalSpecFns;

verus! {

/// One range-spec as the header wrote it, before it is held against the
/// size of a resource.
#[derive(Debug, Clone, Copy, PartialEq, Eq, Hash, Structural)]
pub enum RangeSpec {
    /// `first-last`: the bytes from position `first` to position `last`,
    /// both included.
    FromToAll(u64, u64),
    /// `first-`: the bytes from position `first` to the end.
    FromTo(u64),
    /// `-length`: the last `length` bytes.
    Last(u64),
}

/// The text that opens every header of the bytes unit: `bytes=`, in
/// small letters.
pub open spec fn unit_prefix() -> Seq<u8> {
    seq![0x62u8, 0x79u8, 0x74u8, 0x65u8, 0x73u8, 0x3du8]
}

/// The header that lists `list`: `bytes=` with the list behind it.
pub open spec fn header_of(list: Seq<u8>) -> Seq<u8> {
    unit_prefix() + list
}

/// The three forms of a range-spec, as the grammar has them: whether
/// `text` is one of them and writes `spec`.
pub open spec fn writes(text: Seq<u8>, spec: RangeSpec) -> bool {
    match spec {
        RangeSpec::FromToAll(begin, end) => exists|
            first: Seq<u8>,
            before: Seq<u8>,
            behind: Seq<u8>,
            last: Seq<u8>,
        |
            #![trigger first + before + seq![HYPHEN] + behind + last]
            {
                &&& text == first + before + seq![HYPHEN] + behind + last
                &&& numeral_value(first) == Some(begin)
                &&& is_blank_row(before)
                &&& is_blank_row(behind)
                &&& numeral_value(last) == Some(end)
            },
        RangeSpec::FromTo(offset) => exists|first: Seq<u8>, before: Seq<u8>|
            #![trigger first + before + seq![HYPHEN]]
            {
                &&& text == first + before + seq![HYPHEN]
                &&& numeral_value(first) == Some(offset)
                &&& is_blank_row(before)
            },
        RangeSpec::Last(length) => exists|behind: Seq<u8>, last: Seq<u8>|
            #![trigger seq![HYPHEN] + behind + last]
            {
                &&& text == seq![HYPHEN] + behind + last
                &&& is_blank_row(behind)
                &&& numeral_value(last) == Some(length)
            },
    }
}

/// The range-spec that `text` writes, where it is one from its first byte
/// to its last: the text is cut at its first hyphen, and what stands on
/// either side, blanks next to the hyphen apart, is a numeral or nothing.
pub open spec fn read_range_spec(text: Seq<u8>) -> Option<RangeSpec> {
    let hyphen = first_index(text, HYPHEN) as int;
    if hyphen == text.len() {
        None
    } else {
        let first = trim_end(text.take(hyphen));
        let last = trim_start(text.skip(hyphen + 1));
        if hyphen == 0 {
            match numeral_value(last) {
                Some(length) => Some(RangeSpec::Last(length)),
                None => None,
            }
        } else if hyphen + 1 == text.len() {
            match numeral_value(first) {
                Some(offset) => Some(RangeSpec::FromTo(offset)),
                None => None,
            }
        } else {
            match (numeral_value(first), numeral_value(last)) {
                (Some(begin), Some(end)) => Some(RangeSpec::FromToAll(begin, end)),
                _ => None,
            }
        }
    }
}

/// What one item of the list gives: nothing where it is blank, its
/// range-spec where it writes one, and `None` where it is neither.
pub open spec fn read_item(item: Seq<u8>) -> Option<Seq<RangeSpec>> {
    let text = trim(item);
    if text.len() == 0 {
        Some(Seq::empty())
    } else {
        match read_range_spec(text) {
            Some(spec) => Some(seq![spec]),
            None => None,
        }
    }
}

/// The range-specs of two readable texts, those of the first before those
/// of the second; `None` where either is unreadable.
pub open spec fn join(
    front: Option<Seq<RangeSpec>>,
    back: Option<Seq<RangeSpec>>,
) -> Option<Seq<RangeSpec>> {
    match (front, back) {
        (Some(front), Some(back)) => Some(front + back),
        _ => None,
    }
}

/// The range-specs of a list of items separated by commas, in the order
/// in which the list writes them; `None` where one of the items is
/// unreadable.
pub open spec fn read_list(list: Seq<u8>) -> Option<Seq<RangeSpec>>
    decreases list.len(),
{
    let comma = first_index(list, COMMA) as int;
    if comma >= list.len() {
        read_item(list)
    } else {
        join(read_item(list.take(comma)), read_list(list.skip(comma + 1)))
    }
}

/// The range-specs of a header: those of the list behind `bytes=`, or
/// `None` where the header does not start with `bytes=` or the list is
/// unreadable.
pub open spec fn read_header(header: Seq<u8>) -> Option<Seq<RangeSpec>> {
    if unit_prefix().is_prefix_of(header) {
        read_list(header.skip(unit_prefix().len() as int))
    } else {
        None
    }
}

/// What a reading holds: its range-specs as a sequence, or `None` where
/// the text was unreadable.
pub open spec fn reading(specs: Option<Vec<RangeSpec>>) -> Option<Seq<RangeSpec>> {
    match specs {
        Some(specs) => Some(specs@),
        None => None,
    }
}

/// Whether `bytes` starts with `bytes=`.
pub fn has_unit_prefix(bytes: &[u8]) -> (yes: bool)
    ensures
        yes == unit_prefix().is_prefix_of(bytes@),
{
    let yes = bytes.len() >= 6 && bytes[0] == 0x62 && bytes[1] == 0x79 && bytes[2] == 0x74
        && bytes[3] == 0x65 && bytes[4] == 0x73 && bytes[5] == 0x3d;
    yes
}

/// Reads the range-spec that `bytes` holds in `start..end`.
pub fn parse_range_spec(bytes: &[u8], start: usize, end: usize) -> (spec: Option<RangeSpec>)
    requires
        start <= end <= bytes@.len(),
    ensures
        spec == read_range_spec(bytes@.subrange(start as int, end as int)),
{
    let ghost text = bytes@.subrange(start as int, end as int);
    let hyphen = find_byte(bytes, start, end, HYPHEN);
    if hyphen == end {
        return None;
    }
    let first_end = skip_blanks_back(bytes, start, hyphen);
    let last_start = skip_blanks(bytes, hyphen + 1, end);
    proof {
        assert(text.take(hyphen - start) =~= bytes@.subrange(start as int, hyphen as int));
        assert(text.skip(hyphen - start + 1) =~= bytes@.subrange(hyphen + 1, end as int));
    }
    if hyphen == start {
        match parse_numeral(bytes, last_start, end) {
            Some(length) => Some(RangeSpec::Last(length)),
            None => None,
        }
    } else {
        let first = match parse_numeral(bytes, start, first_end) {
            Some(first) => first,
            None => { return None; },
        };
        if hyphen + 1 == end {
            Some(RangeSpec::FromTo(first))
        } else {
            match parse_numeral(bytes, last_start, end) {
                Some(last) => Some(RangeSpec::FromToAll(first, last)),
                None => None,
            }
        }
    }
}

/// Reads the list of items that `bytes` holds from `start` to its end.
pub fn parse_list(bytes: &[u8], start: usize) -> (specs: Option<Vec<RangeSpec>>)
    requires
        start <= bytes@.len(),
    ensures
        reading(specs) == read_list(bytes@.skip(start as int)),
{
    let len = bytes.len();
    let ghost whole = read_list(bytes@.skip(start as int));
    let mut specs: Vec<RangeSpec> = Vec::new();
    let mut at: usize = start;
    loop
        invariant
            start <= at <= len == bytes@.len(),
            whole == read_list(bytes@.skip(start as int)),
            whole == join(Some(specs@), read_list(bytes@.skip(at as int))),
        decreases len - at,
    {
        let ghost rest = bytes@.skip(at as int);
        let comma = find_byte(bytes, at, len, COMMA);
        let text_start = skip_blanks(bytes, at, comma);
        let text_end = skip_blanks_back(bytes, text_start, comma);
        let ghost item = bytes@.subrange(at as int, comma as int);
        proof {
            assert(item =~= rest.take(comma - at));
            if comma < len {
                assert(rest.skip(comma - at + 1) =~= bytes@.skip(comma + 1));
            }
            assert(read_list(rest) == if comma == len {
                read_item(item)
            } else {
                join(read_item(item), read_list(bytes@.skip(comma + 1)))
            });
        }
        if text_start < text_end {
            match parse_range_spec(bytes, text_start, text_end) {
                Some(spec) => {
                    specs.push(spec);
                },
                None => {
                    return None;
                },
            }
        }
        if comma == len {
            return Some(specs);
        }
        at = comma + 1;
    }
}

/// Reads a header that is held as bytes: the range-specs that it lists,
/// in its order, or `None` where it does not match the grammar.
pub fn tokenize_bytes(header: &[u8]) -> (specs: Option<Vec<RangeSpec>>)
    ensures
        reading(specs) == read_header(header@),
{
    if has_unit_prefix(header) {
        parse_list(header, 6)
    } else {
        None
    }
}

/// Reads the value of a `Range` header field: the range-specs that it
/// lists, in its order, or `None` where it does not match the grammar.
pub fn tokenize(header: &str) -> (specs: Option<Vec<RangeSpec>>)
    ensures
        reading(specs) == read_header(header.spec_bytes()),
{
    tokenize_bytes(header.as_bytes())
}

/// `first-last` is read as such: two numerals with a hyphen between them,
/// and any blanks on either side of the hyphen. It is unreadable where one
/// of the numbers does not fit in 64 bits.
pub proof fn lemma_reads_first_last(
    first: Seq<u8>,
    before: Seq<u8>,
    behind: Seq<u8>,
    last: Seq<u8>,
)
    requires
        is_numeral(first),
        is_numeral(last),
        is_blank_row(before),
        is_blank_row(behind),
    ensures
        read_range_spec(first + before + seq![HYPHEN] + behind + last) == (match (
            numeral_value(first),
            numeral_value(last),
        ) {
            (Some(begin), Some(end)) => Some(RangeSpec::FromToAll(begin, end)),
            _ => None,
        }),
{
    let text = first + before + seq![HYPHEN] + behind + last;
    let hyphen = (first.len() + before.len()) as int;
    lemma_first_index_is(text, HYPHEN, hyphen);
    assert(text.take(hyphen) =~= first + before);
    assert(text.skip(hyphen + 1) =~= behind + last);
    lemma_trim_end_takes_row(first, before);
    lemma_trim_start_takes_row(behind, last);
}

/// `first-` is read as such: a numeral and a hyphen, with any blanks
/// between them. It is unreadable where the number does not fit in 64
/// bits.
pub proof fn lemma_reads_first(first: Seq<u8>, before: Seq<u8>)
    requires
        is_numeral(first),
        is_blank_row(before),
    ensures
        read_range_spec(first + before + seq![HYPHEN]) == (match numeral_value(first) {
            Some(offset) => Some(RangeSpec::FromTo(offset)),
            None => None,
        }),
{
    let text = first + before + seq![HYPHEN];
    let hyphen = (first.len() + before.len()) as int;
    lemma_first_index_is(text, HYPHEN, hyphen);
    assert(text.take(hyphen) =~= first + before);
    lemma_trim_end_takes_row(first, before);
}

/// `-length` is read as such: a hyphen and a numeral, with any blanks
/// between them. It is unreadable where the number does not fit in 64
/// bits.
pub proof fn lemma_reads_suffix(behind: Seq<u8>, length: Seq<u8>)
    requires
        is_numeral(length),
        is_blank_row(behind),
    ensures
        read_range_spec(seq![HYPHEN] + behind + length) == (match numeral_value(length) {
            Some(length) => Some(RangeSpec::Last(length)),
            None => None,
        }),
{
    let text = seq![HYPHEN] + behind + length;
    lemma_first_index_is(text, HYPHEN, 0);
    assert(text.skip(1) =~= behind + length);
    lemma_trim_start_takes_row(behind, length);
}

/// A text is read as a range-spec where it writes that range-spec in one
/// of the three forms, and nowhere else.
pub proof fn lemma_reads_what_is_written(text: Seq<u8>, spec: RangeSpec)
    ensures
        read_range_spec(text) == Some(spec) <==> writes(text, spec),
{
    if read_range_spec(text) == Some(spec) {
        let hyphen = first_index(text, HYPHEN) as int;
        let first = trim_end(text.take(hyphen));
        let last = trim_start(text.skip(hyphen + 1));
        let before = text.take(hyphen).skip(first.len() as int);
        let behind = text.skip(hyphen + 1).take(text.len() - hyphen - 1 - last.len());
        lemma_first_index_found(text, HYPHEN);
        lemma_trim_end_found(text.take(hyphen));
        lemma_trim_start_found(text.skip(hyphen + 1));
        match spec {
            RangeSpec::FromToAll(begin, end) => {
                assert(text =~= first + before + seq![HYPHEN] + behind + last);
            },
            RangeSpec::FromTo(offset) => {
                assert(text =~= first + before + seq![HYPHEN]);
            },
            RangeSpec::Last(length) => {
                assert(text =~= seq![HYPHEN] + behind + last);
            },
        }
    }
    if writes(text, spec) {
        match spec {
            RangeSpec::FromToAll(begin, end) => {
                let (first, before, behind, last) = choose|
                    first: Seq<u8>,
                    before: Seq<u8>,
                    behind: Seq<u8>,
                    last: Seq<u8>,
                |
                    #![trigger first + before + seq![HYPHEN] + behind + last]
                    {
                        &&& text == first + before + seq![HYPHEN] + behind + last
                        &&& numeral_value(first) == Some(begin)
                        &&& is_blank_row(before)
                        &&& is_blank_row(behind)
                        &&& numeral_value(last) == Some(end)
                    };
                lemma_reads_first_last(first, before, behind, last);
            },
            RangeSpec::FromTo(offset) => {
                let (first, before) = choose|first: Seq<u8>, before: Seq<u8>|
                    #![trigger first + before + seq![HYPHEN]]
                    {
                        &&& text == first + before + seq![HYPHEN]
                        &&& numeral_value(first) == Some(offset)
                        &&& is_blank_row(before)
                    };
                lemma_reads_first(first, before);
            },
            RangeSpec::Last(length) => {
                let (behind, last) = choose|behind: Seq<u8>, last: Seq<u8>|
                    #![trigger seq![HYPHEN] + behind + last]
                    {
                        &&& text == seq![HYPHEN] + behind + last
                        &&& is_blank_row(behind)
                        &&& numeral_value(last) == Some(length)
                    };
                lemma_reads_suffix(behind, last);
            },
        }
    }
}

/// Blanks around an item do not count: an item reads as its text does
/// without the blanks before and behind it.
pub proof fn lemma_reads_item(before: Seq<u8>, text: Seq<u8>, behind: Seq<u8>)
    requires
        is_blank_row(before),
        is_blank_row(behind),
        text.len() > 0,
        !is_blank(text[0]),
        !is_blank(text.last()),
    ensures
        read_item(before + text + behind) == (match read_range_spec(text) {
            Some(spec) => Some(seq![spec]),
            None => None,
        }),
{
    lemma_trim_start_takes_row(before, text + behind);
    assert(before + text + behind =~= before + (text + behind));
    lemma_trim_end_takes_row(text, behind);
}

/// An item of blanks alone, or of nothing, is skipped.
pub proof fn lemma_reads_blank_item(item: Seq<u8>)
    requires
        is_blank_row(item),
    ensures
        read_item(item) == Some(Seq::<RangeSpec>::empty()),
{
    lemma_trim_start_takes_row(item, Seq::empty());
}

/// A list without a comma is one item.
pub proof fn lemma_read_list_one(item: Seq<u8>)
    requires
        forall|i: int| 0 <= i < item.len() ==> item[i] != COMMA,
    ensures
        read_list(item) == read_item(item),
{
    lemma_first_index_is(item, COMMA, item.len() as int);
}

/// Order is kept: two lists with a comma between them read as the
/// range-specs of the first followed by those of the second, and are
/// unreadable where either list is.
pub proof fn lemma_read_list_joins(front: Seq<u8>, back: Seq<u8>)
    ensures
        read_list(front + seq![COMMA] + back) == join(read_list(front), read_list(back)),
    decreases front.len(),
{
    let whole = front + seq![COMMA] + back;
    let comma = first_index(front, COMMA) as int;
    lemma_first_index_found(front, COMMA);
    lemma_first_index_is(whole, COMMA, comma);
    if comma == front.len() {
        assert(whole.take(comma) =~= front);
        assert(whole.skip(comma + 1) =~= back);
    } else {
        let rest = front.skip(comma + 1);
        assert(whole.take(comma) =~= front.take(comma));
        assert(whole.skip(comma + 1) =~= rest + seq![COMMA] + back);
        lemma_read_list_joins(rest, back);
    }
}

/// The header of a list reads as the list does.
pub proof fn lemma_read_header_of(list: Seq<u8>)
    ensures
        read_header(header_of(list)) == read_list(list),
{
    let header = header_of(list);
    assert(header.skip(6) =~= list);
}

} // verus!
