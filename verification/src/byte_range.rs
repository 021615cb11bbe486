//! The byte range, and the reading of a `Range` header into byte ranges.

use crate::grammar::{
    header_of, lemma_read_header_of, lemma_read_list_joins, read_header, read_list, tokenize,
    RangeSpec,
};
use crate::normalize::{
    lemma_select_all_joins, lemma_select_all_within, normalize_all, select, select_all,
};
use crate::text::COMMA;
use vstd::math::min;
use vstd::prelude::*;
use vstd::string::StringSliceAdditionalSpecFns;

verus! {

/// One contiguous part of a resource: `length` bytes starting at the
/// zero-based position `offset`.
#[derive(Debug, Clone, Copy, PartialEq, Eq, Hash, Structural)]
pub struct ByteRange {
    /// The zero-based position of the first byte.
    pub offset: u64,
    /// The number of bytes; at least 1 in every range that `parse` gives.
    pub length: u64,
}

impl View for ByteRange {
    type V = Set<int>;

    /// The positions of the bytes in the range.
    open spec fn view(&self) -> Set<int> {
        Set::new(|at: int| self.offset <= at < self.offset + self.length)
    }
}

impl ByteRange {
    /// The range holds at least one byte and lies inside a resource of
    /// `total_size` bytes, so that it starts before the end of the resource
    /// and ends at it or before it.
    pub open spec fn within(self, total_size: u64) -> bool {
        &&& self.length > 0
        &&& self.offset + self.length <= total_size
    }

    /// The range-spec `first-last` that writes this range. Where the last
    /// position has no 64-bit number, `u64::MAX` stands for it.
    pub open spec fn as_spec(self) -> RangeSpec {
        RangeSpec::FromToAll(
            self.offset,
            min(self.offset + self.length - 1, u64::MAX as int) as u64,
        )
    }

    /// What is left of this range in a resource of `total_size` bytes: the
    /// range as far as the resource reaches, or `None` where the range is
    /// empty or starts behind the end of the resource.
    pub open spec fn clamped(self, total_size: u64) -> Option<ByteRange> {
        if self.length > 0 && self.offset < total_size {
            Some(
                ByteRange {
                    offset: self.offset,
                    length: min(self.length as int, total_size - self.offset) as u64,
                },
            )
        } else {
            None
        }
    }

    /// The byte ranges that a header asks of a resource of `total_size`
    /// bytes: none of an empty resource, none where the header is
    /// unreadable, else what its range-specs select, in their order.
    pub open spec fn requested(header: Seq<u8>, total_size: u64) -> Seq<ByteRange> {
        if total_size == 0 {
            Seq::empty()
        } else {
            match read_header(header) {
                Some(specs) => select_all(specs, total_size),
                None => Seq::empty(),
            }
        }
    }

    /// Reads the value of a `Range` header field and holds it against a
    /// resource of `total_size` bytes. The result is empty where the
    /// resource is empty, where the header does not match the grammar, and
    /// where none of its range-specs selects a byte of the resource.
    pub fn parse(header: &str, total_size: u64) -> (ranges: Vec<ByteRange>)
        ensures
            ranges@ == Self::requested(header.spec_bytes(), total_size),
            total_size == 0 ==> ranges@.len() == 0,
            forall|i: int| 0 <= i < ranges@.len() ==> (#[trigger] ranges@[i]).within(total_size),
    {
        if total_size == 0 {
            return Vec::new();
        }
        match tokenize(header) {
            Some(specs) => normalize_all(specs.as_slice(), total_size),
            None => Vec::new(),
        }
    }

    /// Holds this range against a resource of `total_size` bytes once
    /// more: it is cut off at the end of the resource, and nothing is left
    /// of it where it is empty or starts behind the end.
    pub fn clamp_to(&self, total_size: u64) -> (range: Option<ByteRange>)
        ensures
            range == self.clamped(total_size),
            self.within(total_size) ==> range == Some(*self),
            range matches Some(range) ==> range.within(total_size),
    {
        if self.length == 0 {
            return None;
        }
        let last = self.offset.saturating_add(self.length - 1);
        RangeSpec::FromToAll(self.offset, last).normalize(total_size)
    }
}

/// To hold a byte range against a resource is to hold the range-spec
/// `first-last` that writes it against the resource.
pub proof fn lemma_clamped_is_selected(range: ByteRange, total_size: u64)
    requires
        range.length > 0,
    ensures
        range.clamped(total_size) == select(range.as_spec(), total_size),
{
}

/// Holding a byte range against the resource a second time changes
/// nothing: what a range-spec selected from a resource is left whole by
/// that resource.
pub proof fn lemma_clamped_keeps_selected(spec: RangeSpec, total_size: u64)
    ensures
        select(spec, total_size) matches Some(range) ==> range.clamped(total_size) == Some(range),
{
}

/// What is left of a byte range in a resource is left whole by that
/// resource.
pub proof fn lemma_clamped_twice(range: ByteRange, total_size: u64)
    ensures
        range.clamped(total_size) matches Some(left) ==> left.clamped(total_size) == Some(left),
{
}

/// Every byte range that a header asks of a resource is not empty and
/// lies inside the resource.
pub proof fn lemma_requested_within(header: Seq<u8>, total_size: u64)
    ensures
        forall|i: int|
            0 <= i < ByteRange::requested(header, total_size).len() ==> (
            #[trigger] ByteRange::requested(header, total_size)[i]).within(total_size),
{
    if let Some(specs) = read_header(header) {
        lemma_select_all_within(specs, total_size);
    }
}

/// Order is kept from header to result: a header that lists `front`, a
/// comma and `back` asks for the byte ranges of `front` followed by those
/// of `back`, each as a header of its own would ask for them. Where
/// either list is unreadable it asks for none.
pub proof fn lemma_requested_in_order(front: Seq<u8>, back: Seq<u8>, total_size: u64)
    ensures
        ByteRange::requested(header_of(front + seq![COMMA] + back), total_size) == (if read_list(
            front,
        ) is Some && read_list(back) is Some {
            ByteRange::requested(header_of(front), total_size) + ByteRange::requested(
                header_of(back),
                total_size,
            )
        } else {
            Seq::empty()
        }),
{
    lemma_read_header_of(front + seq![COMMA] + back);
    lemma_read_header_of(front);
    lemma_read_header_of(back);
    lemma_read_list_joins(front, back);
    if let (Some(first), Some(second)) = (read_list(front), read_list(back)) {
        lemma_select_all_joins(first, second, total_size);
    }
}

} // verus!
