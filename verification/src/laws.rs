//! The round-trip laws of the library: what a builder writes, the parser
//! accepts and reads back unchanged, and the streaming decoder replays the
//! very same elements.

use vstd::prelude::*;
use vstd::arithmetic::div_mod::lemma_div_plus_one;
use crate::builder::{encodes, encodes_header_first};
use crate::control::{
    cw_len_of, cw_width_of, expected_size, lemma_control_word_roundtrip, MAX_LOGARRAY_LEN,
};
use crate::model::{data_size, elems_of};

verus! {

/// Building then parsing is the identity: a trailer-layout encoding of
/// `vals` at width `width` — what `LogArrayBufBuilder::finalize` and
/// `LateLogArrayBufBuilder::finalize` emit — satisfies every demand of
/// `LogArray::parse`, which then reports exactly `vals.len()` elements of
/// width `width`, and reading the elements back, by index or by iteration,
/// yields `vals` element for element.
pub proof fn lemma_build_then_parse(s: Seq<u8>, vals: Seq<u64>, width: u8)
    requires
        encodes(s, vals, width),
        width <= 64,
        vals.len() <= MAX_LOGARRAY_LEN,
    ensures
        s.len() == expected_size(vals.len() as int, width as int),
        s.len() >= 8,
        cw_len_of(s.skip(s.len() - 8)) == vals.len(),
        cw_width_of(s.skip(s.len() - 8)) == width,
        elems_of(s, 0, width as int, vals.len() as int) == vals,
{
    lemma_control_word_roundtrip(vals.len() as u64, width);
    assert(elems_of(s, 0, width as int, vals.len() as int) =~= vals);
}

/// The header-first counterpart: a header-first encoding of `vals` at width
/// `width` — what `LateLogArrayBufBuilder::finalize_header_first` emits —
/// satisfies every demand of `LogArray::parse_header_first`, which then
/// reports exactly `vals.len()` elements of width `width`, reads them back
/// as `vals`, and hands back an empty remainder.
pub proof fn lemma_build_then_parse_header_first(s: Seq<u8>, vals: Seq<u64>, width: u8)
    requires
        encodes_header_first(s, vals, width),
        width <= 64,
        vals.len() <= MAX_LOGARRAY_LEN,
    ensures
        s.len() == expected_size(vals.len() as int, width as int),
        s.len() >= 8,
        cw_len_of(s.take(8)) == vals.len(),
        cw_width_of(s.take(8)) == width,
        elems_of(
            s.subrange(8, 8 + data_size(vals.len() as int, width as int)),
            0,
            width as int,
            vals.len() as int,
        ) == vals,
{
    lemma_control_word_roundtrip(vals.len() as u64, width);
    let dsize = data_size(vals.len() as int, width as int);
    assert(s.subrange(8, 8 + dsize) =~= s.skip(8));
    assert(elems_of(s.skip(8), 0, width as int, vals.len() as int) =~= vals);
}

/// The exact size of a built trailer-layout array:
/// `⌈(len · width + 64) / 64⌉ · 8` bytes, data words and control word
/// together.
pub proof fn lemma_built_size(len: int, width: int)
    requires
        0 <= len,
        0 <= width,
    ensures
        expected_size(len, width) == 8 * ((len * width + 127) / 64),
{
    vstd::arithmetic::mul::lemma_mul_nonnegative(len, width);
    lemma_div_plus_one(len * width + 63, 64);
}

} // verus!
