//! Binary search over monotonic log arrays.

use bytes::{Bytes, BytesMut};
use logarray::array::LogArray;
use logarray::builder::LogArrayBufBuilder;
use logarray::monotonic::MonotonicLogArray;

fn build(vals: Vec<u64>, width: u8) -> Bytes {
    let mut builder = LogArrayBufBuilder::new(BytesMut::new(), width);
    builder.push_vec(vals);
    builder.finalize().freeze()
}

#[test]
fn monotonic_logarray_index_lookup() {
    let original: Vec<u64> = vec![1, 3, 5, 6, 7, 10, 11, 15, 16, 18, 20, 25, 31];
    let content = build(original.clone(), 5);

    let logarray = LogArray::parse(content).unwrap();
    let monotonic = MonotonicLogArray::from_logarray(logarray);

    for (i, &val) in original.iter().enumerate() {
        assert_eq!(i, monotonic.index_of(val).unwrap());
    }

    assert_eq!(None, monotonic.index_of(12));
    assert_eq!(original.len(), monotonic.len());
}

#[test]
fn monotonic_logarray_near_index_lookup() {
    let original: Vec<u64> = vec![3, 5, 6, 7, 10, 11, 15, 16, 18, 20, 25, 31];
    let content = build(original.clone(), 5);

    let logarray = LogArray::parse(content).unwrap();
    let monotonic = MonotonicLogArray::from_logarray(logarray);

    for (i, &val) in original.iter().enumerate() {
        assert_eq!(i, monotonic.index_of(val).unwrap());
    }

    let nearest: Vec<_> = (1..=32).map(|i| monotonic.nearest_index_of(i)).collect();
    let expected = vec![
        0, 0, 0, 1, 1, 2, 3, 4, 4, 4, 5, 6, 6, 6, 6, 7, 8, 8, 9, 9, 10, 10, 10, 10, 10, 11, 11,
        11, 11, 11, 11, 12,
    ];
    assert_eq!(expected, nearest);
}

#[test]
fn nearest_index_of_empty_array_is_zero() {
    let monotonic = MonotonicLogArray::parse(Bytes::from([0u8; 8].as_ref())).unwrap();
    assert_eq!(0, monotonic.nearest_index_of(5));
}

#[test]
fn validating_construction_rejects_unsorted() {
    // Two elements of width 32: [2, 1], which descend.
    let content: Vec<u8> = vec![0, 0, 0, 2, 0, 0, 0, 1, 0, 0, 0, 2, 32, 0, 0, 0];
    let logarray = LogArray::parse(Bytes::from(content)).unwrap();
    assert!(MonotonicLogArray::try_from_logarray(logarray).is_none());

    let sorted = build(vec![1, 2, 3], 2);
    let logarray = LogArray::parse(sorted).unwrap();
    assert!(MonotonicLogArray::try_from_logarray(logarray).is_some());
}

#[test]
fn monotonic_slice_and_iteration() {
    let original: Vec<u64> = vec![2, 4, 8, 16, 23];
    let content = build(original.clone(), 5);
    let monotonic = MonotonicLogArray::parse(content).unwrap();

    let mut iter = monotonic.iter();
    let mut collected: Vec<u64> = Vec::new();
    while let Some(v) = iter.next() {
        collected.push(v);
    }
    assert_eq!(original, collected);

    let slice = monotonic.slice(1, 3);
    assert_eq!(3, slice.len());
    assert_eq!(4, slice.entry(0));
    assert_eq!(16, slice.entry(2));
    assert_eq!(2, slice.index_of(16).unwrap());
}

#[test]
fn monotonic_header_first_parse() {
    let mut builder = logarray::builder::LateLogArrayBufBuilder::new(BytesMut::new());
    builder.push_vec(vec![1, 5, 9]);
    let content = builder.finalize_header_first().freeze();
    let (monotonic, rest) = MonotonicLogArray::parse_header_first(content).unwrap();
    assert_eq!(3, monotonic.len());
    assert_eq!(Some(1), monotonic.index_of(5));
    assert!(rest.is_empty());
}
