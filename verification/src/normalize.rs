//! Holding range-specs against the size of a resource.

use crate::byte_range::ByteRange;
use crate::grammar::RangeSpec;
use vstd::math::min;
use vstd::prelude::*;

verus! {

/// The positions in a resource of `total_size` bytes that `spec` names.
pub open spec fn named_positions(spec: RangeSpec, total_size: u64) -> Set<int> {
    match spec {
        RangeSpec::FromToAll(begin, end) => Set::new(
            |at: int| begin <= at <= end && at < total_size,
        ),
        RangeSpec::FromTo(offset) => Set::new(|at: int| offset <= at < total_size),
        RangeSpec::Last(length) => Set::new(
            |at: int| 0 <= at < total_size && total_size - length <= at,
        ),
    }
}

/// The byte range that `spec` selects from a resource of `total_size`
/// bytes, or `None` where it selects no byte of it.
///
/// - `first-last` selects from `first` to `last` or to the end of the
///   resource, whichever comes first; nothing where `first` lies behind
///   `last` or behind the end.
/// - `first-` selects from `first` to the end of the resource; nothing
///   where `first` lies behind the end.
/// - `-length` selects the last `length` bytes of the resource, or all of
///   it where it has fewer; nothing where `length` is 0 or the resource
///   is empty.
pub open spec fn select(spec: RangeSpec, total_size: u64) -> Option<ByteRange> {
    match spec {
        RangeSpec::FromToAll(begin, end) => {
            if begin < total_size && begin <= end {
                let end = min(end as int, total_size - 1);
                Some(ByteRange { offset: begin, length: (end - begin + 1) as u64 })
            } else {
                None
            }
        },
        RangeSpec::FromTo(offset) => {
            if offset < total_size {
                Some(ByteRange { offset, length: (total_size - offset) as u64 })
            } else {
                None
            }
        },
        RangeSpec::Last(length) => {
            if length > 0 && total_size > 0 {
                let length = min(length as int, total_size as int);
                Some(ByteRange { offset: (total_size - length) as u64, length: length as u64 })
            } else {
                None
            }
        },
    }
}

/// The byte ranges that `specs` select from a resource of `total_size`
/// bytes: one for each range-spec that selects any, in the order of
/// `specs`.
pub open spec fn select_all(specs: Seq<RangeSpec>, total_size: u64) -> Seq<ByteRange> {
    specs.filter_map(|spec: RangeSpec| select(spec, total_size))
}

/// The places in `specs` of the range-specs that select a byte range from
/// a resource of `total_size` bytes, from the first to the last.
pub open spec fn survivors(specs: Seq<RangeSpec>, total_size: u64) -> Seq<int>
    decreases specs.len(),
{
    if specs.len() == 0 {
        Seq::empty()
    } else {
        let earlier = survivors(specs.drop_last(), total_size);
        if select(specs.last(), total_size) is Some {
            earlier.push(specs.len() - 1)
        } else {
            earlier
        }
    }
}

impl RangeSpec {
    /// Holds the range-spec against a resource of `total_size` bytes:
    /// gives the byte range that it selects, or `None` where it selects no
    /// byte of the resource.
    pub fn normalize(&self, total_size: u64) -> (range: Option<ByteRange>)
        ensures
            range == select(*self, total_size),
            range matches Some(range) ==> range.within(total_size),
            (match (*self, range) {
                (RangeSpec::FromToAll(begin, end), Some(range)) => {
                    &&& begin <= end
                    &&& range.offset == begin
                    &&& range.offset + range.length - 1 == min(end as int, total_size - 1)
                },
                (RangeSpec::FromToAll(begin, end), None) => begin > end || begin >= total_size,
                (RangeSpec::FromTo(offset), Some(range)) => {
                    &&& range.offset == offset
                    &&& range.offset + range.length == total_size
                },
                (RangeSpec::FromTo(offset), None) => offset >= total_size,
                (RangeSpec::Last(length), Some(range)) => {
                    &&& range.offset + range.length == total_size
                    &&& range.length == min(length as int, total_size as int)
                },
                (RangeSpec::Last(length), None) => length == 0 || total_size == 0,
            }),
    {
        match *self {
            RangeSpec::FromToAll(begin, end) => {
                if begin >= total_size {
                    return None;
                }
                let end = if end < total_size - 1 {
                    end
                } else {
                    total_size - 1
                };
                if begin > end {
                    None
                } else {
                    Some(ByteRange { offset: begin, length: end - begin + 1 })
                }
            },
            RangeSpec::FromTo(offset) => {
                if offset >= total_size {
                    None
                } else {
                    Some(ByteRange { offset, length: total_size - offset })
                }
            },
            RangeSpec::Last(length) => {
                let length = if length < total_size {
                    length
                } else {
                    total_size
                };
                if length == 0 {
                    None
                } else {
                    Some(ByteRange { offset: total_size - length, length })
                }
            },
        }
    }
}

/// Holds each of `specs` against a resource of `total_size` bytes and
/// keeps, in their order, the byte ranges of those that select any.
pub fn normalize_all(specs: &[RangeSpec], total_size: u64) -> (ranges: Vec<ByteRange>)
    ensures
        ranges@ == select_all(specs@, total_size),
        forall|i: int| 0 <= i < ranges@.len() ==> (#[trigger] ranges@[i]).within(total_size),
{
    let mut ranges: Vec<ByteRange> = Vec::new();
    let mut at: usize = 0;
    while at < specs.len()
        invariant
            at <= specs@.len(),
            ranges@ == select_all(specs@.take(at as int), total_size),
            forall|i: int| 0 <= i < ranges@.len() ==> (#[trigger] ranges@[i]).within(total_size),
        decreases specs@.len() - at,
    {
        proof {
            let next = specs@.take(at + 1);
            assert(next.drop_last() =~= specs@.take(at as int));
        }
        match specs[at].normalize(total_size) {
            Some(range) => {
                ranges.push(range);
            },
            None => {},
        }
        at += 1;
    }
    proof {
        assert(specs@.take(at as int) =~= specs@);
    }
    ranges
}

/// A range-spec that selects a byte range selects one that is not empty
/// and lies inside the resource.
pub proof fn lemma_select_within(spec: RangeSpec, total_size: u64)
    ensures
        select(spec, total_size) matches Some(range) ==> range.within(total_size),
{
}

/// The byte range that a range-spec selects holds the positions that the
/// range-spec names in the resource, all of them and no others; it selects
/// none where it names none.
pub proof fn lemma_select_positions(spec: RangeSpec, total_size: u64)
    ensures
        (match select(spec, total_size) {
            Some(range) => range@ == named_positions(spec, total_size),
            None => named_positions(spec, total_size) == Set::<int>::empty(),
        }),
{
}

/// One range-spec gives one byte range or none.
pub proof fn lemma_select_all_one(spec: RangeSpec, total_size: u64)
    ensures
        select_all(seq![spec], total_size) == (match select(spec, total_size) {
            Some(range) => seq![range],
            None => Seq::empty(),
        }),
{
    Seq::lemma_filter_map_singleton(spec, |spec: RangeSpec| select(spec, total_size));
}

/// Order is kept, and nothing is merged: the byte ranges of two rows of
/// range-specs, one behind the other, are those of the first row followed
/// by those of the second.
pub proof fn lemma_select_all_joins(front: Seq<RangeSpec>, back: Seq<RangeSpec>, total_size: u64)
    ensures
        select_all(front + back, total_size) == select_all(front, total_size) + select_all(
            back,
            total_size,
        ),
    decreases back.len(),
{
    if back.len() > 0 {
        let whole = front + back;
        assert(whole.drop_last() =~= front + back.drop_last());
        lemma_select_all_joins(front, back.drop_last(), total_size);
    }
}

/// Order is kept, and nothing is merged or left out: the byte ranges are,
/// one for one and in the same order, what the surviving range-specs
/// select. The places of the survivors rise, and every range-spec that
/// selects a byte range is among them.
pub proof fn lemma_select_all_by_survivors(specs: Seq<RangeSpec>, total_size: u64)
    ensures
        select_all(specs, total_size).len() == survivors(specs, total_size).len(),
        forall|k: int|
            0 <= k < survivors(specs, total_size).len() ==> 0 <= (#[trigger] survivors(
                specs,
                total_size,
            )[k]) < specs.len(),
        forall|k: int|
            0 <= k < survivors(specs, total_size).len() ==> select(
                specs[#[trigger] survivors(specs, total_size)[k]],
                total_size,
            ) == Some(select_all(specs, total_size)[k]),
        forall|k: int, l: int|
            0 <= k < l < survivors(specs, total_size).len() ==> #[trigger] survivors(
                specs,
                total_size,
            )[k] < #[trigger] survivors(specs, total_size)[l],
        forall|i: int|
            0 <= i < specs.len() && (#[trigger] select(specs[i], total_size)) is Some
                ==> survivors(specs, total_size).contains(i),
    decreases specs.len(),
{
    if specs.len() > 0 {
        let rest = specs.drop_last();
        let places = survivors(specs, total_size);
        let earlier = survivors(rest, total_size);
        lemma_select_all_by_survivors(rest, total_size);
        assert forall|k: int| 0 <= k < places.len() implies 0 <= (#[trigger] places[k])
            < specs.len() && select(specs[places[k]], total_size) == Some(
            select_all(specs, total_size)[k],
        ) by {
            if k < earlier.len() {
                assert(places[k] == earlier[k]);
                assert(specs[earlier[k]] == rest[earlier[k]]);
            }
        }
        assert forall|k: int, l: int| 0 <= k < l < places.len() implies #[trigger] places[k]
            < #[trigger] places[l] by {
            assert(places[k] == earlier[k]);
            if l < earlier.len() {
                assert(places[l] == earlier[l]);
            }
        }
        assert forall|i: int|
            0 <= i < specs.len() && (#[trigger] select(
                specs[i],
                total_size,
            )) is Some implies places.contains(i) by {
            if i < rest.len() {
                assert(specs[i] == rest[i]);
                assert(earlier.contains(i));
                let k = choose|k: int| 0 <= k < earlier.len() && earlier[k] == i;
                assert(places[k] == i);
            } else {
                assert(places[places.len() - 1] == i);
            }
        }
    }
}

/// Every byte range that a row of range-specs selects is not empty and
/// lies inside the resource.
pub proof fn lemma_select_all_within(specs: Seq<RangeSpec>, total_size: u64)
    ensures
        forall|i: int|
            0 <= i < select_all(specs, total_size).len() ==> (#[trigger] select_all(
                specs,
                total_size,
            )[i]).within(total_size),
    decreases specs.len(),
{
    if specs.len() > 0 {
        let ranges = select_all(specs, total_size);
        let earlier = select_all(specs.drop_last(), total_size);
        lemma_select_all_within(specs.drop_last(), total_size);
        assert forall|i: int| 0 <= i < ranges.len() implies (#[trigger] ranges[i]).within(
            total_size,
        ) by {
            if i < earlier.len() {
                assert(ranges[i] == earlier[i]);
            }
        }
    }
}

} // verus!
