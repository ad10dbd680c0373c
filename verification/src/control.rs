//! The 8-byte control word that carries (length, width), and the size
//! validation a parser performs against it.
//!
//! Layout: bytes 0..4 hold the low 32 bits of the length, big-endian; byte 4
//! holds the width; bytes 5..8 hold the high 24 bits of the length,
//! big-endian. The length is therefore capped at `2^56 - 1`.

use vstd::prelude::*;
use vstd::arithmetic::div_mod::{lemma_div_plus_one, lemma_fundamental_div_mod};
use crate::error::LogArrayError;
use crate::model::{data_size, lemma_bit_index_split, lemma_ceil64};

verus! {

/// The largest element count a control word can carry: `2^56 - 1`.
pub const MAX_LOGARRAY_LEN: u64 = 0xFF_FFFF_FFFF_FFFF;

/// The big-endian 32-bit integer at bytes `off .. off + 4`.
pub open spec fn be_u32_at(s: Seq<u8>, off: int) -> u32 {
    ((s[off] as u32) << 24u32) | ((s[off + 1] as u32) << 16u32)
        | ((s[off + 2] as u32) << 8u32) | (s[off + 3] as u32)
}

/// The length carried by a control word: the low 32 bits from bytes 0..4 and
/// the high 24 bits from bytes 5..8 (the width byte masked out).
pub open spec fn cw_len_of(s: Seq<u8>) -> u64 {
    ((((be_u32_at(s, 4) & 0xFFFFFF) as u64) << 32u64) | (be_u32_at(s, 0) as u64)) as u64
}

/// The width carried by a control word: byte 4.
pub open spec fn cw_width_of(s: Seq<u8>) -> u8 {
    s[4]
}

/// The 8 bytes of the control word for `(len, width)`.
pub open spec fn cw_bytes(len: u64, width: u8) -> Seq<u8> {
    seq![
        ((len >> 24u64) & 0xff) as u8,
        ((len >> 16u64) & 0xff) as u8,
        ((len >> 8u64) & 0xff) as u8,
        (len & 0xff) as u8,
        width,
        ((len >> 48u64) & 0xff) as u8,
        ((len >> 40u64) & 0xff) as u8,
        ((len >> 32u64) & 0xff) as u8,
    ]
}

/// The exact buffer size the trailer layout demands for `(len, width)`:
/// the data words plus the control word, `⌈(len · width + 64) / 64⌉ · 8`.
pub open spec fn expected_size(len: int, width: int) -> int {
    data_size(len, width) + 8
}

/// A control word never carries a length above `MAX_LOGARRAY_LEN`.
pub proof fn lemma_cw_len_bound(s: Seq<u8>)
    ensures
        cw_len_of(s) <= MAX_LOGARRAY_LEN,
{
    let hi = be_u32_at(s, 4);
    let lo = be_u32_at(s, 0);
    assert(((((hi & 0xFFFFFF) as u64) << 32u64) | (lo as u64)) as u64
        <= 0xFF_FFFF_FFFF_FFFFu64) by (bit_vector);
}

/// Decoding inverts encoding: the control word for `(len, width)` parses
/// back to `(len, width)`.
pub proof fn lemma_control_word_roundtrip(len: u64, width: u8)
    requires
        len <= MAX_LOGARRAY_LEN,
    ensures
        cw_bytes(len, width).len() == 8,
        cw_len_of(cw_bytes(len, width)) == len,
        cw_width_of(cw_bytes(len, width)) == width,
{
    let s = cw_bytes(len, width);
    let lo = be_u32_at(s, 0);
    let hi = be_u32_at(s, 4);
    assert(lo == ((((len >> 24u64) & 0xff) as u8 as u32) << 24u32)
        | ((((len >> 16u64) & 0xff) as u8 as u32) << 16u32)
        | ((((len >> 8u64) & 0xff) as u8 as u32) << 8u32) | ((len & 0xff) as u8 as u32));
    assert(hi == ((width as u32) << 24u32) | ((((len >> 48u64) & 0xff) as u8 as u32) << 16u32)
        | ((((len >> 40u64) & 0xff) as u8 as u32) << 8u32) | (((len >> 32u64) & 0xff) as u8 as u32));
    assert(len <= 0xFF_FFFF_FFFF_FFFFu64 ==> (((((((width as u32) << 24u32)
        | ((((len >> 48u64) & 0xff) as u8 as u32) << 16u32)
        | ((((len >> 40u64) & 0xff) as u8 as u32) << 8u32)
        | (((len >> 32u64) & 0xff) as u8 as u32)) & 0xFFFFFF) as u64) << 32u64)
        | ((((((len >> 24u64) & 0xff) as u8 as u32) << 24u32)
        | ((((len >> 16u64) & 0xff) as u8 as u32) << 16u32)
        | ((((len >> 8u64) & 0xff) as u8 as u32) << 8u32)
        | ((len & 0xff) as u8 as u32)) as u64)) as u64 == len) by (bit_vector);
}

/// Reads the length and bit width out of the first 8 bytes of `buf`, without
/// validation against any buffer size.
pub fn parse_control_word(buf: &[u8]) -> (r: (u64, u8))
    requires
        buf@.len() >= 8,
    ensures
        r.0 == cw_len_of(buf@),
        r.0 <= MAX_LOGARRAY_LEN,
        r.1 == cw_width_of(buf@),
{
    let len_1: u64 = (((buf[0] as u32) << 24u32) | ((buf[1] as u32) << 16u32)
        | ((buf[2] as u32) << 8u32) | (buf[3] as u32)) as u64;
    let width: u8 = buf[4];
    let hi: u32 = ((buf[4] as u32) << 24u32) | ((buf[5] as u32) << 16u32)
        | ((buf[6] as u32) << 8u32) | (buf[7] as u32);
    let len_2: u64 = (hi & 0xFFFFFF) as u64;
    proof {
        assert(len_2 == ((hi & 0xFFFFFF) as u64) && len_2 <= 0xFFFFFF
            ==> ((len_2 << 32u64) | len_1) == (len_2 << 32u64) | len_1) by (bit_vector);
        assert((hi & 0xFFFFFF) <= 0xFFFFFF) by (bit_vector);
        lemma_cw_len_bound(buf@);
    }
    let len: u64 = (len_2 << 32u32) | len_1;
    (len, width)
}

/// The control word for `(len, width)`, as 8 bytes.
pub fn control_word(len: u64, width: u8) -> (r: Vec<u8>)
    requires
        len <= MAX_LOGARRAY_LEN,
    ensures
        r@ == cw_bytes(len, width),
{
    proof {
        assert(((len >> 24u64) & 0xff) < 256 && ((len >> 16u64) & 0xff) < 256
            && ((len >> 8u64) & 0xff) < 256 && (len & 0xff) < 256
            && ((len >> 48u64) & 0xff) < 256 && ((len >> 40u64) & 0xff) < 256
            && ((len >> 32u64) & 0xff) < 256) by (bit_vector);
    }
    let mut r: Vec<u8> = Vec::new();
    r.push(((len >> 24u32) & 0xff) as u8);
    r.push(((len >> 16u32) & 0xff) as u8);
    r.push(((len >> 8u32) & 0xff) as u8);
    r.push((len & 0xff) as u8);
    r.push(width);
    r.push(((len >> 48u32) & 0xff) as u8);
    r.push(((len >> 40u32) & 0xff) as u8);
    r.push(((len >> 32u32) & 0xff) as u8);
    proof {
        assert(r@ =~= cw_bytes(len, width));
    }
    r
}

/// The checked form of `control_word`: rejects a length the control word
/// cannot carry instead of demanding it up front.
pub fn try_control_word(len: u64, width: u8) -> (r: Result<Vec<u8>, LogArrayError>)
    ensures
        len <= MAX_LOGARRAY_LEN ==> (r matches Ok(v) && v@ == cw_bytes(len, width)),
        len > MAX_LOGARRAY_LEN ==> (r matches Err(e) && e == LogArrayError::LengthExceedsLimit(len)),
{
    if len > MAX_LOGARRAY_LEN {
        Err(LogArrayError::LengthExceedsLimit(len))
    } else {
        Ok(control_word(len, width))
    }
}

impl LogArrayError {
    /// Validate the input buffer size: it must have room for at least the
    /// control word.
    pub fn validate_input_buf_size(input_buf_size: usize) -> (r: Result<(), Self>)
        ensures
            input_buf_size >= 8 ==> r matches Ok(()),
            input_buf_size < 8 ==> (r matches Err(e)
                && e == LogArrayError::InputBufferTooSmall(input_buf_size)),
    {
        if input_buf_size < 8 {
            return Err(LogArrayError::InputBufferTooSmall(input_buf_size));
        }
        Ok(())
    }

    /// Validate the length and width against the input buffer size, which
    /// must match exactly: the data words plus the control word.
    pub fn validate_len_and_width(input_buf_size: usize, len: u64, width: u8) -> (r: Result<
        (),
        Self,
    >)
        requires
            len <= MAX_LOGARRAY_LEN,
        ensures
            width > 64 ==> (r matches Err(e) && e == LogArrayError::WidthTooLarge(width)),
            width <= 64 && input_buf_size == expected_size(len as int, width as int)
                ==> r matches Ok(()),
            width <= 64 && input_buf_size != expected_size(len as int, width as int)
                ==> (r matches Err(e) && e == LogArrayError::UnexpectedInputBufferSize(
                input_buf_size as u64,
                expected_size(len as int, width as int) as u64,
                len,
                width,
            )),
    {
        if width > 64 {
            return Err(LogArrayError::WidthTooLarge(width));
        }
        let expected_buf_size = expected_buf_size(len, width);
        let input_buf_size = input_buf_size as u64;
        if input_buf_size != expected_buf_size {
            return Err(LogArrayError::UnexpectedInputBufferSize(
                input_buf_size,
                expected_buf_size,
                len,
                width,
            ));
        }
        Ok(())
    }

    /// Validate the length and width against the input buffer size, which may
    /// be larger than the data words plus the control word, but not smaller.
    pub fn validate_len_and_width_trailing(input_buf_size: usize, len: u64, width: u8) -> (r:
        Result<(), Self>)
        requires
            len <= MAX_LOGARRAY_LEN,
        ensures
            width > 64 ==> (r matches Err(e) && e == LogArrayError::WidthTooLarge(width)),
            width <= 64 && input_buf_size >= expected_size(len as int, width as int)
                ==> r matches Ok(()),
            width <= 64 && input_buf_size < expected_size(len as int, width as int)
                ==> (r matches Err(e) && e == LogArrayError::UnexpectedInputBufferSize(
                input_buf_size as u64,
                expected_size(len as int, width as int) as u64,
                len,
                width,
            )),
    {
        if width > 64 {
            return Err(LogArrayError::WidthTooLarge(width));
        }
        let expected_buf_size = expected_buf_size(len, width);
        let input_buf_size = input_buf_size as u64;
        if input_buf_size < expected_buf_size {
            return Err(LogArrayError::UnexpectedInputBufferSize(
                input_buf_size,
                expected_buf_size,
                len,
                width,
            ));
        }
        Ok(())
    }
}

/// The exact buffer size the trailer layout demands, computed as the rounded
/// word count of `len · width + 64` bits.
fn expected_buf_size(len: u64, width: u8) -> (r: u64)
    requires
        len <= MAX_LOGARRAY_LEN,
        width <= 64,
    ensures
        r == expected_size(len as int, width as int),
{
    proof {
        vstd::arithmetic::mul::lemma_mul_upper_bound(
            len as int,
            MAX_LOGARRAY_LEN as int,
            width as int,
            64,
        );
    }
    let bits: u64 = len * (width as u64);
    proof {
        lemma_bit_index_split((bits + 127) as u64);
        lemma_div_plus_one((bits + 63) as int, 64);
        lemma_ceil64(bits as int);
        lemma_fundamental_div_mod(bits as int, 64);
    }
    (bits + 127) >> 6u32 << 3u32
}

/// Read the length and bit width from the control word at the start of
/// `buf`, validating them against the full input buffer size, which must
/// match exactly.
pub fn read_control_word(buf: &[u8], input_buf_size: usize) -> (r: Result<
    (u64, u8),
    LogArrayError,
>)
    requires
        buf@.len() >= 8,
    ensures
        ({
            let len = cw_len_of(buf@);
            let width = cw_width_of(buf@);
            &&& width > 64 ==> (r matches Err(e) && e == LogArrayError::WidthTooLarge(width))
            &&& width <= 64 && input_buf_size == expected_size(len as int, width as int)
                ==> (r matches Ok(v) && v == (len, width))
            &&& width <= 64 && input_buf_size != expected_size(len as int, width as int)
                ==> (r matches Err(e) && e == LogArrayError::UnexpectedInputBufferSize(
                input_buf_size as u64,
                expected_size(len as int, width as int) as u64,
                len,
                width,
            ))
        }),
{
    let (len, width) = parse_control_word(buf);
    match LogArrayError::validate_len_and_width(input_buf_size, len, width) {
        Ok(()) => Ok((len, width)),
        Err(e) => Err(e),
    }
}

/// Read the length and bit width from the control word at the start of
/// `buf`, validating them against the full input buffer size, which may be
/// larger than needed.
pub fn read_control_word_trailing(buf: &[u8], input_buf_size: usize) -> (r: Result<
    (u64, u8),
    LogArrayError,
>)
    requires
        buf@.len() >= 8,
    ensures
        ({
            let len = cw_len_of(buf@);
            let width = cw_width_of(buf@);
            &&& width > 64 ==> (r matches Err(e) && e == LogArrayError::WidthTooLarge(width))
            &&& width <= 64 && input_buf_size >= expected_size(len as int, width as int)
                ==> (r matches Ok(v) && v == (len, width))
            &&& width <= 64 && input_buf_size < expected_size(len as int, width as int)
                ==> (r matches Err(e) && e == LogArrayError::UnexpectedInputBufferSize(
                input_buf_size as u64,
                expected_size(len as int, width as int) as u64,
                len,
                width,
            ))
        }),
{
    let (len, width) = parse_control_word(buf);
    match LogArrayError::validate_len_and_width_trailing(input_buf_size, len, width) {
        Ok(()) => Ok((len, width)),
        Err(e) => Err(e),
    }
}

/// The number of data bytes that `len` elements of `width` bits occupy:
/// `⌈len · width / 64⌉` words of 8 bytes.
pub fn logarray_length_from_len_width(len: u64, width: u8) -> (r: usize)
    requires
        len <= MAX_LOGARRAY_LEN,
        width <= 64,
        data_size(len as int, width as int) <= usize::MAX,
    ensures
        r == data_size(len as int, width as int),
{
    proof {
        vstd::arithmetic::mul::lemma_mul_upper_bound(
            len as int,
            MAX_LOGARRAY_LEN as int,
            width as int,
            64,
        );
    }
    let num_bits: u64 = len * (width as u64);
    let num_u64: u64 = num_bits / 64 + (if num_bits % 64 == 0 {
        0
    } else {
        1
    });
    proof {
        lemma_ceil64(num_bits as int);
        lemma_fundamental_div_mod(num_bits as int, 64);
    }
    let num_bytes: u64 = num_u64 * 8;
    num_bytes as usize
}

/// The number of data bytes announced by the control word at the start of
/// `buf`.
pub fn logarray_length_from_control_word(buf: &[u8]) -> (r: usize)
    requires
        buf@.len() >= 8,
        cw_width_of(buf@) <= 64,
        data_size(cw_len_of(buf@) as int, cw_width_of(buf@) as int) <= usize::MAX,
    ensures
        r == data_size(cw_len_of(buf@) as int, cw_width_of(buf@) as int),
{
    let (len, width) = parse_control_word(buf);
    logarray_length_from_len_width(len, width)
}

} // verus!
