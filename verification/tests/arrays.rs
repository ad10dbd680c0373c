//! Parsing, indexed access, iteration and slicing of log arrays.

use bytes::{Bytes, BytesMut};
use logarray::array::{LogArray, LogArrayIterator};
use logarray::builder::{LateLogArrayBufBuilder, LogArrayBufBuilder};
use logarray::error::LogArrayError;
use logarray::monotonic::MonotonicLogArray;

fn collect(iter: &mut LogArrayIterator) -> Vec<u64> {
    let mut result = Vec::new();
    while let Some(v) = iter.next() {
        result.push(v);
    }
    result
}

fn build(vals: Vec<u64>, width: u8) -> Bytes {
    let mut builder = LogArrayBufBuilder::new(BytesMut::new(), width);
    builder.push_vec(vals);
    builder.finalize().freeze()
}

#[test]
pub fn empty() {
    let logarray = LogArray::parse(Bytes::from([0u8; 8].as_ref())).unwrap();
    assert!(logarray.is_empty());
    assert!(MonotonicLogArray::from_logarray(logarray).is_empty());
}

#[test]
fn empty_parses_as_zero_length_and_width() {
    let logarray = LogArray::parse(Bytes::from([0u8; 8].as_ref())).unwrap();
    assert_eq!(0, logarray.len());
    assert_eq!(0, logarray.width());
    assert!(MonotonicLogArray::parse(Bytes::from([0u8; 8].as_ref())).is_ok());
}

#[test]
pub fn late_logarray_just_zero() {
    let buf = BytesMut::new();
    let mut builder = LateLogArrayBufBuilder::new(buf);
    builder.push(0);
    let logarray_buf = builder.finalize().freeze();
    let logarray = LogArray::parse(logarray_buf).unwrap();
    assert_eq!(logarray.entry(0_usize), 0_u64);
}

#[test]
fn single_zero_parses_as_length_one_width_zero() {
    let mut builder = LateLogArrayBufBuilder::new(BytesMut::new());
    builder.push(0);
    let logarray = LogArray::parse(builder.finalize().freeze()).unwrap();
    assert_eq!(1, logarray.len());
    assert_eq!(0, logarray.width());
    assert_eq!(0, logarray.entry(0));
}

#[test]
fn generate_then_parse_works() {
    let content = build(vec![1, 3, 2, 5, 12, 31, 18], 5);

    let logarray = LogArray::parse(content).unwrap();

    assert_eq!(1, logarray.entry(0));
    assert_eq!(3, logarray.entry(1));
    assert_eq!(2, logarray.entry(2));
    assert_eq!(5, logarray.entry(3));
    assert_eq!(12, logarray.entry(4));
    assert_eq!(31, logarray.entry(5));
    assert_eq!(18, logarray.entry(6));
}

#[test]
fn eager_width5_produces_one_data_word_and_trailer() {
    let content = build(vec![1, 3, 2, 5, 12, 31, 18], 5);
    assert_eq!(16, content.len());
    let logarray = LogArray::parse(content).unwrap();
    assert_eq!(vec![1, 3, 2, 5, 12, 31, 18], collect(&mut logarray.iter()));
}

#[test]
fn entries_stay_below_two_to_the_width() {
    let content = build(vec![1, 3, 2, 5, 12, 31, 18], 5);
    let logarray = LogArray::parse(content).unwrap();
    for i in 0..logarray.len() {
        assert!(logarray.entry(i) < 32);
    }
}

#[test]
fn iterate_over_logarray() {
    let original: Vec<u64> = vec![1, 3, 2, 5, 12, 31, 18];
    let content = build(original.clone(), 5);

    let logarray = LogArray::parse(content).unwrap();

    let result: Vec<u64> = collect(&mut logarray.iter());

    assert_eq!(original, result);
}

#[test]
fn iterate_over_logarray_slice() {
    let original: Vec<u64> = vec![1, 3, 2, 5, 12, 31, 18];
    let content = build(original, 5);

    let logarray = LogArray::parse(content).unwrap();
    let slice = logarray.slice(2, 3);

    let result: Vec<u64> = collect(&mut slice.iter());

    assert_eq!([2, 5, 12], result.as_ref());
}

#[test]
fn slice_entries_match_parent_entries() {
    let content = build(vec![9, 8, 7, 6, 5, 4], 4);
    let logarray = LogArray::parse(content).unwrap();
    let slice = logarray.slice(1, 4);
    for j in 0..4 {
        assert_eq!(logarray.entry(1 + j), slice.entry(j));
    }
}

#[test]
fn try_slice_out_of_bounds() {
    let content = build(vec![1, 2, 3], 2);
    let logarray = LogArray::parse(content).unwrap();
    assert!(logarray.try_slice(1, 2).is_some());
    assert!(logarray.try_slice(2, 2).is_none());
}

#[test]
fn writing_64_bits_of_data() {
    let original = vec![1, 2, 3, 4, 5, 6, 7, 8, 1, 2, 3, 4, 5, 6, 7, 8];
    let content = build(original.clone(), 4);
    assert_eq!(16, content.len());
    let logarray = LogArray::parse(content).unwrap();
    assert_eq!(original, collect(&mut logarray.iter()));
    assert_eq!(16, logarray.len());
    assert_eq!(4, logarray.width());
}

#[test]
fn parse_rejects_short_buffer() {
    let r = LogArray::parse(Bytes::from([0u8, 0, 0].as_ref()));
    assert_eq!(Some(LogArrayError::InputBufferTooSmall(3)), r.err());
}

#[test]
fn parse_rejects_width_over_64() {
    let r = LogArray::parse(Bytes::from([0u8, 0, 0, 0, 65, 0, 0, 0].as_ref()));
    assert_eq!(Some(LogArrayError::WidthTooLarge(65)), r.err());
}

#[test]
fn parse_rejects_size_mismatch() {
    let r = LogArray::parse(Bytes::from([0u8, 0, 0, 1, 17, 0, 0, 0].as_ref()));
    assert_eq!(
        Some(LogArrayError::UnexpectedInputBufferSize(8, 16, 1, 17)),
        r.err()
    );
}

#[test]
fn header_first_roundtrip_with_remainder() {
    let original: Vec<u64> = vec![4, 1, 777, 3];
    let mut builder = LateLogArrayBufBuilder::new(BytesMut::new());
    builder.push_vec(original.clone());
    let mut content = builder.finalize_header_first();
    content.extend_from_slice(&[0xAA, 0xBB]);

    let (logarray, rest) = LogArray::parse_header_first(content.freeze()).unwrap();
    assert_eq!(4, logarray.len());
    assert_eq!(10, logarray.width());
    assert_eq!(original, collect(&mut logarray.iter()));
    assert_eq!(&[0xAA, 0xBB], rest.as_ref());
}
