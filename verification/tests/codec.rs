//! Control word encoding, decoding, and size validation.

use logarray::control::{
    control_word, parse_control_word, read_control_word, try_control_word, MAX_LOGARRAY_LEN,
};
use logarray::error::LogArrayError;

#[test]
fn log_array_error() {
    assert_eq!(
        "expected input buffer size (7) >= 8",
        LogArrayError::InputBufferTooSmall(7).message()
    );
    assert_eq!(
        "expected width (69) <= 64",
        LogArrayError::WidthTooLarge(69).message()
    );
    assert_eq!(
        "expected input buffer size (9) to be 8 for 0 elements and width 17",
        LogArrayError::UnexpectedInputBufferSize(9, 8, 0, 17).message()
    );
}

#[test]
fn validate_input_buf_size() {
    let val = |buf_size| LogArrayError::validate_input_buf_size(buf_size);
    let err = |buf_size| Err(LogArrayError::InputBufferTooSmall(buf_size));
    assert_eq!(err(7), val(7));
    assert_eq!(Ok(()), val(8));
    assert_eq!(Ok(()), val(9));
    assert_eq!(Ok(()), val(usize::MAX));
}

#[test]
fn validate_len_and_width() {
    let val = |buf_size, len, width| LogArrayError::validate_len_and_width(buf_size, len, width);

    let err = |width| Err(LogArrayError::WidthTooLarge(width));

    // width: 65
    assert_eq!(err(65), val(0, 0, 65));

    let err = |buf_size, expected, len, width| {
        Err(LogArrayError::UnexpectedInputBufferSize(
            buf_size, expected, len, width,
        ))
    };

    // width: 0
    assert_eq!(err(0, 8, 0, 0), val(0, 0, 0));

    // width: 1
    assert_eq!(Ok(()), val(8, 0, 1));
    assert_eq!(err(9, 8, 0, 1), val(9, 0, 1));
    assert_eq!(Ok(()), val(16, 1, 1));

    // width: 64
    assert_eq!(Ok(()), val(16, 1, 64));
    assert_eq!(err(16, 24, 2, 64), val(16, 2, 64));
    assert_eq!(err(24, 16, 1, 64), val(24, 1, 64));

    assert_eq!(
        Ok(()),
        val(
            usize::try_from(u64::from(u32::MAX) + 1 << 3).unwrap(),
            u32::MAX as u64,
            64
        )
    );

    // width: 5
    assert_eq!(err(16, 24, 13, 5), val(16, 13, 5));
    assert_eq!(Ok(()), val(24, 13, 5));
}

#[test]
fn large_control_word() {
    let num: u64 = 0xFF_FFFF_FFFF_FFFF;
    let width: u8 = 32;

    let control_word = control_word(num, width);
    assert_eq!(&[255, 255, 255, 255, 32, 255, 255, 255], control_word.as_slice());
    let (out_num, out_width) = parse_control_word(&control_word);
    assert_eq!(num, out_num);
    assert_eq!(width, out_width);
}

#[test]
fn logarray_file_get_length_and_width_errors() {
    // Too small a buffer is rejected before any control word is read.
    assert_eq!(
        Err(LogArrayError::InputBufferTooSmall(3)),
        LogArrayError::validate_input_buf_size(3)
    );

    // A width over 64 is rejected.
    assert_eq!(
        Err(LogArrayError::WidthTooLarge(65)),
        read_control_word(&[0, 0, 0, 0, 65, 0, 0, 0], 8)
    );

    // A buffer whose size disagrees with the control word is rejected.
    assert_eq!(
        Err(LogArrayError::UnexpectedInputBufferSize(8, 16, 1, 17)),
        read_control_word(&[0, 0, 0, 1, 17, 0, 0, 0], 8)
    );
}

#[test]
fn control_word_length_limit() {
    assert!(try_control_word(MAX_LOGARRAY_LEN, 7).is_ok());
    assert_eq!(
        Err(LogArrayError::LengthExceedsLimit(MAX_LOGARRAY_LEN + 1)),
        try_control_word(MAX_LOGARRAY_LEN + 1, 7)
    );
}

#[test]
fn control_word_roundtrip_small() {
    for len in [0u64, 1, 2, 255, 256, 65536, 1 << 32, (1 << 56) - 1] {
        for width in [0u8, 1, 5, 17, 32, 64] {
            let cw = control_word(len, width);
            assert_eq!(8, cw.len());
            assert_eq!((len, width), parse_control_word(&cw));
        }
    }
}
