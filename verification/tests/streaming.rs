//! The streaming decoder and the deferred-width builder.

use bytes::BytesMut;
use logarray::builder::{LateLogArrayBufBuilder, LogArrayBufBuilder};
use logarray::decoder::LogArrayDecoder;
use logarray::error::LogArrayError;

const TEST0_DATA: [u8; 8] = [
    0b00000000, 0b00000000, 0b1_0000000, 0b00000000, 0b10_000000, 0b00000000, 0b011_00000,
    0b00000000,
];
const TEST1_DATA: [u8; 8] = [
    0b0100_0000, 0b00000000, 0b00101_000, 0b00000000, 0b000110_00, 0b00000000, 0b0000111_0,
    0b00000000,
];

#[test]
fn decode() {
    let mut decoder = LogArrayDecoder::new_unchecked(17, 1);
    let mut bytes = BytesMut::from(TEST0_DATA.as_ref());
    assert_eq!(Some(1), decoder.decode(&mut bytes));
    assert_eq!(None, decoder.decode(&mut bytes));
    decoder = LogArrayDecoder::new_unchecked(17, 4);
    bytes = BytesMut::from(TEST0_DATA.as_ref());
    assert_eq!(Some(1), decoder.decode(&mut bytes));
    assert_eq!(Some(2), decoder.decode(&mut bytes));
    assert_eq!(Some(3), decoder.decode(&mut bytes));
    assert_eq!(None, decoder.decode(&mut bytes));
    bytes.extend(TEST1_DATA.iter());
    assert_eq!(Some(4), decoder.decode(&mut bytes));
    assert_eq!(None, decoder.decode(&mut bytes));
}

#[test]
fn straddling_width_17_layout_is_exact() {
    let mut builder = LogArrayBufBuilder::new(BytesMut::new(), 17);
    builder.push_vec(vec![1, 2, 3, 4, 5, 6, 7]);
    let content = builder.finalize();
    let mut expected = Vec::new();
    expected.extend_from_slice(&TEST0_DATA);
    expected.extend_from_slice(&TEST1_DATA);
    expected.extend_from_slice(&[0, 0, 0, 7, 17, 0, 0, 0]);
    assert_eq!(expected.as_slice(), content.as_ref());
}

#[test]
fn generate_then_stream_works() {
    let mut builder = LogArrayBufBuilder::new(BytesMut::new(), 5);
    let original: Vec<u64> = (0..31).collect();
    builder.push_vec(original.clone());
    let content = builder.finalize();

    let mut decoder = LogArrayDecoder::new_unchecked(5, 31);
    let mut bytes = content;
    let mut entries: Vec<u64> = Vec::new();
    loop {
        match decoder.decode(&mut bytes) {
            Some(v) => entries.push(v),
            None => break,
        }
    }
    assert_eq!(original, entries);
}

#[test]
fn width_zero_streams_zeros() {
    let mut decoder = LogArrayDecoder::new_unchecked(0, 3);
    let mut bytes = BytesMut::new();
    assert_eq!(Some(0), decoder.decode(&mut bytes));
    assert_eq!(Some(0), decoder.decode(&mut bytes));
    assert_eq!(Some(0), decoder.decode(&mut bytes));
    assert_eq!(None, decoder.decode(&mut bytes));
}

#[test]
fn late_builder_tracks_width_and_contents() {
    let mut builder = LateLogArrayBufBuilder::new(BytesMut::new());
    builder.push(5);
    builder.push(1000);
    builder.push(7);
    assert_eq!(3, builder.count());
    assert_eq!(Some(7), builder.last());
    assert_eq!(Some(7), builder.pop());
    builder.push(7);
    let content = builder.finalize().freeze();
    let logarray = logarray::array::LogArray::parse(content).unwrap();
    assert_eq!(3, logarray.len());
    assert_eq!(10, logarray.width());
    assert_eq!(5, logarray.entry(0));
    assert_eq!(1000, logarray.entry(1));
    assert_eq!(7, logarray.entry(2));
}

#[test]
fn try_push_rejects_wide_value() {
    let mut builder = LogArrayBufBuilder::new(BytesMut::new(), 3);
    assert_eq!(
        Err(LogArrayError::ValueExceedsWidth(8, 3)),
        builder.try_push(8)
    );
    assert_eq!(
        "expected value (8) to fit in 3 bits",
        LogArrayError::ValueExceedsWidth(8, 3).message()
    );
    assert_eq!(Ok(()), builder.try_push(7));
    assert_eq!(1, builder.count());
}

#[test]
fn width_64_roundtrip() {
    let original = vec![u64::MAX, 0, 1, u64::MAX - 1];
    let mut builder = LogArrayBufBuilder::new(BytesMut::new(), 64);
    builder.push_vec(original.clone());
    let logarray = logarray::array::LogArray::parse(builder.finalize().freeze()).unwrap();
    assert_eq!(4, logarray.len());
    assert_eq!(64, logarray.width());
    for (i, v) in original.iter().enumerate() {
        assert_eq!(*v, logarray.entry(i));
    }
}

#[test]
fn calculate_width_is_minimal() {
    assert_eq!(0, logarray::width::calculate_width(0));
    assert_eq!(1, logarray::width::calculate_width(1));
    assert_eq!(2, logarray::width::calculate_width(3));
    assert_eq!(3, logarray::width::calculate_width(4));
    assert_eq!(5, logarray::width::calculate_width(31));
    assert_eq!(10, logarray::width::calculate_width(1000));
    assert_eq!(64, logarray::width::calculate_width(u64::MAX));
}
