use range_header::{normalize_all, ByteRange, RangeSpec};

fn bytes_at(offset: u64, length: u64) -> ByteRange {
    ByteRange { offset, length }
}

#[test]
fn first_last_runs_to_last_or_to_the_end() {
    assert_eq!(RangeSpec::FromToAll(10, 100).normalize(200), Some(bytes_at(10, 91)));
    assert_eq!(RangeSpec::FromToAll(10, 199).normalize(200), Some(bytes_at(10, 190)));
    assert_eq!(RangeSpec::FromToAll(10, 200).normalize(200), Some(bytes_at(10, 190)));
    assert_eq!(RangeSpec::FromToAll(10, u64::MAX).normalize(200), Some(bytes_at(10, 190)));
    assert_eq!(RangeSpec::FromToAll(0, 0).normalize(200), Some(bytes_at(0, 1)));
    assert_eq!(RangeSpec::FromToAll(199, 199).normalize(200), Some(bytes_at(199, 1)));
    assert_eq!(RangeSpec::FromToAll(199, 500).normalize(200), Some(bytes_at(199, 1)));
}

#[test]
fn first_last_is_dropped_behind_the_end_or_inverted() {
    assert_eq!(RangeSpec::FromToAll(200, 300).normalize(200), None);
    assert_eq!(RangeSpec::FromToAll(201, 300).normalize(200), None);
    assert_eq!(RangeSpec::FromToAll(5, 4).normalize(10), None);
    assert_eq!(RangeSpec::FromToAll(u64::MAX, 0).normalize(u64::MAX), None);
    assert_eq!(RangeSpec::FromToAll(0, 0).normalize(0), None);
}

#[test]
fn first_runs_to_the_end() {
    assert_eq!(RangeSpec::FromTo(10).normalize(200), Some(bytes_at(10, 190)));
    assert_eq!(RangeSpec::FromTo(0).normalize(200), Some(bytes_at(0, 200)));
    assert_eq!(RangeSpec::FromTo(199).normalize(200), Some(bytes_at(199, 1)));
    assert_eq!(RangeSpec::FromTo(0).normalize(u64::MAX), Some(bytes_at(0, u64::MAX)));
}

#[test]
fn first_is_dropped_behind_the_end() {
    assert_eq!(RangeSpec::FromTo(200).normalize(200), None);
    assert_eq!(RangeSpec::FromTo(u64::MAX).normalize(200), None);
    assert_eq!(RangeSpec::FromTo(0).normalize(0), None);
}

#[test]
fn suffix_is_the_end_of_the_resource() {
    assert_eq!(RangeSpec::Last(100).normalize(200), Some(bytes_at(100, 100)));
    assert_eq!(RangeSpec::Last(1).normalize(200), Some(bytes_at(199, 1)));
    assert_eq!(RangeSpec::Last(200).normalize(200), Some(bytes_at(0, 200)));
    assert_eq!(RangeSpec::Last(15).normalize(10), Some(bytes_at(0, 10)));
    assert_eq!(RangeSpec::Last(u64::MAX).normalize(10), Some(bytes_at(0, 10)));
    assert_eq!(
        RangeSpec::Last(u64::MAX).normalize(u64::MAX),
        Some(bytes_at(0, u64::MAX))
    );
}

#[test]
fn suffix_is_dropped_where_it_names_no_byte() {
    assert_eq!(RangeSpec::Last(0).normalize(200), None);
    assert_eq!(RangeSpec::Last(5).normalize(0), None);
    assert_eq!(RangeSpec::Last(0).normalize(0), None);
}

#[test]
fn a_row_of_range_specs_keeps_its_order() {
    let specs = [
        RangeSpec::FromTo(90),
        RangeSpec::FromToAll(5, 4),
        RangeSpec::FromToAll(50, 60),
        RangeSpec::FromTo(100),
        RangeSpec::Last(100),
        RangeSpec::Last(0),
        RangeSpec::FromToAll(50, 60),
    ];
    assert_eq!(
        normalize_all(&specs, 100),
        vec![bytes_at(90, 10), bytes_at(50, 11), bytes_at(0, 100), bytes_at(50, 11)]
    );
    assert_eq!(normalize_all(&specs, 0), vec![]);
    assert_eq!(normalize_all(&[], 100), vec![]);
    assert_eq!(
        normalize_all(&specs, 55),
        vec![bytes_at(50, 5), bytes_at(0, 55), bytes_at(50, 5)]
    );
}

#[test]
fn a_row_gives_what_its_range_specs_give_one_by_one() {
    let specs = [
        RangeSpec::FromToAll(0, 9),
        RangeSpec::FromToAll(9, 0),
        RangeSpec::FromTo(7),
        RangeSpec::Last(3),
        RangeSpec::Last(0),
        RangeSpec::FromToAll(3, u64::MAX),
    ];
    for total_size in [0u64, 1, 3, 4, 7, 8, 9, 10, 11, u64::MAX] {
        let one_by_one: Vec<ByteRange> = specs
            .iter()
            .filter_map(|spec| spec.normalize(total_size))
            .collect();
        assert_eq!(normalize_all(&specs, total_size), one_by_one);
        for cut in 0..=specs.len() {
            let mut apart = normalize_all(&specs[..cut], total_size);
            apart.extend(normalize_all(&specs[cut..], total_size));
            assert_eq!(apart, one_by_one);
        }
    }
}

#[test]
fn a_selected_range_holds_the_positions_that_were_named() {
    let specs = [
        RangeSpec::FromToAll(2, 5),
        RangeSpec::FromToAll(5, 2),
        RangeSpec::FromToAll(0, 100),
        RangeSpec::FromTo(0),
        RangeSpec::FromTo(6),
        RangeSpec::FromTo(9),
        RangeSpec::Last(0),
        RangeSpec::Last(4),
        RangeSpec::Last(40),
    ];
    for total_size in 0u64..12 {
        for spec in specs {
            let named: Vec<u64> = (0..total_size)
                .filter(|&at| match spec {
                    RangeSpec::FromToAll(begin, end) => begin <= at && at <= end,
                    RangeSpec::FromTo(offset) => offset <= at,
                    RangeSpec::Last(length) => total_size - at <= length,
                })
                .collect();
            let held: Vec<u64> = match spec.normalize(total_size) {
                Some(found) => (found.offset..found.offset + found.length).collect(),
                None => vec![],
            };
            assert_eq!(held, named, "{spec:?} {total_size}");
        }
    }
}

#[test]
fn a_range_inside_the_resource_is_left_whole() {
    assert_eq!(bytes_at(10, 91).clamp_to(200), Some(bytes_at(10, 91)));
    assert_eq!(bytes_at(10, 190).clamp_to(200), Some(bytes_at(10, 190)));
    assert_eq!(bytes_at(0, 200).clamp_to(200), Some(bytes_at(0, 200)));
    assert_eq!(bytes_at(199, 1).clamp_to(200), Some(bytes_at(199, 1)));
    assert_eq!(bytes_at(0, u64::MAX).clamp_to(u64::MAX), Some(bytes_at(0, u64::MAX)));
}

#[test]
fn a_range_is_cut_off_by_a_smaller_resource() {
    assert_eq!(bytes_at(10, 91).clamp_to(50), Some(bytes_at(10, 40)));
    assert_eq!(bytes_at(10, 91).clamp_to(11), Some(bytes_at(10, 1)));
    assert_eq!(bytes_at(10, 91).clamp_to(10), None);
    assert_eq!(bytes_at(10, 91).clamp_to(0), None);
    assert_eq!(bytes_at(5, 0).clamp_to(100), None);
    assert_eq!(bytes_at(u64::MAX, u64::MAX).clamp_to(u64::MAX), None);
    assert_eq!(
        bytes_at(u64::MAX - 1, u64::MAX).clamp_to(u64::MAX),
        Some(bytes_at(u64::MAX - 1, 1))
    );
    assert_eq!(bytes_at(7, u64::MAX).clamp_to(10), Some(bytes_at(7, 3)));
}

#[test]
fn what_a_header_gave_is_left_whole_by_the_same_resource() {
    let headers = [
        "bytes=10-100",
        "bytes=10-",
        "bytes=-100",
        "bytes=500-600,601-999",
        "bytes=-15,0-0,3-1000000",
    ];
    for total_size in [1u64, 10, 200, 10000, u64::MAX] {
        for header in headers {
            for found in ByteRange::parse(header, total_size) {
                assert_eq!(found.clamp_to(total_size), Some(found));
            }
        }
    }
}

#[test]
fn clamping_twice_is_clamping_once() {
    let ranges = [
        bytes_at(0, 1),
        bytes_at(0, 0),
        bytes_at(3, 9),
        bytes_at(50, 50),
        bytes_at(99, u64::MAX),
        bytes_at(u64::MAX, 1),
    ];
    for total_size in [0u64, 1, 5, 50, 99, 100, u64::MAX] {
        for whole in ranges {
            if let Some(left) = whole.clamp_to(total_size) {
                assert_eq!(left.clamp_to(total_size), Some(left));
            }
        }
    }
}

#[test]
fn first_last_keeps_first_and_ends_at_last_or_at_the_end() {
    let numbers = [0u64, 1, 2, 9, 10, 11, 99, u64::MAX - 1, u64::MAX];
    for total_size in numbers {
        for begin in numbers {
            for end in numbers {
                let found = RangeSpec::FromToAll(begin, end).normalize(total_size);
                if begin <= end && begin < total_size {
                    let found = found.unwrap();
                    assert_eq!(found.offset, begin);
                    assert_eq!(found.offset + (found.length - 1), end.min(total_size - 1));
                } else {
                    assert_eq!(found, None);
                }
            }
        }
    }
}

#[test]
fn first_keeps_first_and_ends_at_the_end() {
    let numbers = [0u64, 1, 2, 9, 10, 11, 99, u64::MAX - 1, u64::MAX];
    for total_size in numbers {
        for offset in numbers {
            let found = RangeSpec::FromTo(offset).normalize(total_size);
            if offset < total_size {
                let found = found.unwrap();
                assert_eq!(found.offset, offset);
                assert_eq!(found.length, total_size - offset);
            } else {
                assert_eq!(found, None);
            }
        }
    }
}

#[test]
fn suffix_ends_at_the_end_and_is_no_longer_than_asked() {
    let numbers = [0u64, 1, 2, 9, 10, 11, 99, u64::MAX - 1, u64::MAX];
    for total_size in numbers {
        for length in numbers {
            let found = RangeSpec::Last(length).normalize(total_size);
            if length > 0 && total_size > 0 {
                let found = found.unwrap();
                assert_eq!(found.length, length.min(total_size));
                assert_eq!(found.offset, total_size - found.length);
            } else {
                assert_eq!(found, None);
            }
        }
    }
}
