//! The mathematical model of a packed-integer buffer.
//!
//! A buffer is a sequence of bytes; every aligned group of 8 bytes forms a
//! big-endian 64-bit word. Elements of `width` bits are laid out back to back
//! over the words: the most significant bit of element `i` sits at bit
//! `width * i mod 64` (counting from the most significant bit) of word
//! `width * i / 64`. The spec functions here say what value each element has;
//! the lemmas relate that value to the word-level shift arithmetic that the
//! executable code uses.

use vstd::prelude::*;
use vstd::arithmetic::div_mod::{
    lemma_fundamental_div_mod, lemma_fundamental_div_mod_converse,
};
use vstd::arithmetic::mul::lemma_mul_nonnegative;
use vstd::arithmetic::power2::pow2;
use vstd::bits::lemma_u64_shr_is_div;

verus! {

/// The big-endian 64-bit word number `j` of a byte sequence: bytes
/// `8j .. 8j + 8` combined, first byte most significant.
pub open spec fn word_at(s: Seq<u8>, j: int) -> u64 {
    ((s[8 * j] as u64) << 56u64) | ((s[8 * j + 1] as u64) << 48u64)
        | ((s[8 * j + 2] as u64) << 40u64) | ((s[8 * j + 3] as u64) << 32u64)
        | ((s[8 * j + 4] as u64) << 24u64) | ((s[8 * j + 5] as u64) << 16u64)
        | ((s[8 * j + 6] as u64) << 8u64) | (s[8 * j + 7] as u64)
}

/// The 8 bytes of `x` in big-endian order.
pub open spec fn word_bytes(x: u64) -> Seq<u8> {
    seq![
        ((x >> 56u64) & 0xff) as u8,
        ((x >> 48u64) & 0xff) as u8,
        ((x >> 40u64) & 0xff) as u8,
        ((x >> 32u64) & 0xff) as u8,
        ((x >> 24u64) & 0xff) as u8,
        ((x >> 16u64) & 0xff) as u8,
        ((x >> 8u64) & 0xff) as u8,
        (x & 0xff) as u8,
    ]
}

/// `v` is representable in `width` bits.
pub open spec fn fits_width(v: u64, width: int) -> bool {
    width >= 64 || (v as nat) < pow2(width as nat)
}

/// The value of element `i` of a packed buffer whose first accessible
/// element is element `first` of the underlying layout.
pub open spec fn elem_of(s: Seq<u8>, first: int, width: int, i: int) -> u64 {
    if width <= 0 {
        0
    } else {
        let bi = width * (first + i);
        let wj = bi / 64;
        let off = bi % 64;
        if off + width <= 64 {
            (word_at(s, wj) << (off as u64)) >> ((64 - width) as u64)
        } else {
            let sw = (width - (64 - off)) as u64;
            (((word_at(s, wj) << (off as u64)) >> (off as u64)) << sw)
                | (word_at(s, wj + 1) >> ((64 - sw) as u64))
        }
    }
}

/// All `len` elements of a packed buffer, in order.
pub open spec fn elems_of(s: Seq<u8>, first: int, width: int, len: int) -> Seq<u64> {
    Seq::new(len as nat, |i: int| elem_of(s, first, width, i))
}

/// Number of 64-bit data words needed for `len` elements of `width` bits:
/// `⌈len · width / 64⌉`.
pub open spec fn data_words(len: int, width: int) -> int {
    (len * width + 63) / 64
}

/// Number of data bytes for `len` elements of `width` bits.
pub open spec fn data_size(len: int, width: int) -> int {
    8 * data_words(len, width)
}

/// Characterizes division and remainder by 64 from a bracketing multiple.
pub proof fn lemma_div64(bi: int, k: int)
    requires
        64 * k <= bi < 64 * (k + 1),
    ensures
        bi / 64 == k,
        bi % 64 == bi - 64 * k,
{
    lemma_fundamental_div_mod_converse(bi, 64, k, bi - 64 * k);
}

/// A word fully inside a prefix reads the same from the longer sequence.
pub proof fn lemma_word_at_append(s: Seq<u8>, t: Seq<u8>, j: int)
    requires
        0 <= j,
        8 * j + 8 <= s.len(),
    ensures
        word_at(s + t, j) == word_at(s, j),
{
    assert((s + t)[8 * j] == s[8 * j]);
    assert((s + t)[8 * j + 1] == s[8 * j + 1]);
    assert((s + t)[8 * j + 2] == s[8 * j + 2]);
    assert((s + t)[8 * j + 3] == s[8 * j + 3]);
    assert((s + t)[8 * j + 4] == s[8 * j + 4]);
    assert((s + t)[8 * j + 5] == s[8 * j + 5]);
    assert((s + t)[8 * j + 6] == s[8 * j + 6]);
    assert((s + t)[8 * j + 7] == s[8 * j + 7]);
}

/// Appending the 8 big-endian bytes of `x` to a word-aligned sequence makes
/// `x` its next word.
pub proof fn lemma_word_at_bytes(s: Seq<u8>, x: u64)
    requires
        s.len() % 8 == 0,
    ensures
        word_at(s + word_bytes(x), s.len() as int / 8) == x,
{
    let t = s + word_bytes(x);
    let j = s.len() as int / 8;
    lemma_fundamental_div_mod(s.len() as int, 8);
    assert(t[8 * j] == ((x >> 56u64) & 0xff) as u8);
    assert(t[8 * j + 1] == ((x >> 48u64) & 0xff) as u8);
    assert(t[8 * j + 2] == ((x >> 40u64) & 0xff) as u8);
    assert(t[8 * j + 3] == ((x >> 32u64) & 0xff) as u8);
    assert(t[8 * j + 4] == ((x >> 24u64) & 0xff) as u8);
    assert(t[8 * j + 5] == ((x >> 16u64) & 0xff) as u8);
    assert(t[8 * j + 6] == ((x >> 8u64) & 0xff) as u8);
    assert(t[8 * j + 7] == (x & 0xff) as u8);
    assert(((((x >> 56u64) & 0xff) as u8 as u64) << 56u64)
        | ((((x >> 48u64) & 0xff) as u8 as u64) << 48u64)
        | ((((x >> 40u64) & 0xff) as u8 as u64) << 40u64)
        | ((((x >> 32u64) & 0xff) as u8 as u64) << 32u64)
        | ((((x >> 24u64) & 0xff) as u8 as u64) << 24u64)
        | ((((x >> 16u64) & 0xff) as u8 as u64) << 16u64)
        | ((((x >> 8u64) & 0xff) as u8 as u64) << 8u64) | ((x & 0xff) as u8 as u64)
        == x) by (bit_vector);
}

/// The first word of an appended tail is the next word of the whole.
pub proof fn lemma_word_at_concat(s: Seq<u8>, t: Seq<u8>)
    requires
        s.len() % 8 == 0,
        t.len() >= 8,
    ensures
        word_at(s + t, s.len() as int / 8) == word_at(t, 0),
{
    let j = s.len() as int / 8;
    lemma_fundamental_div_mod(s.len() as int, 8);
    assert((s + t)[8 * j] == t[0]);
    assert((s + t)[8 * j + 1] == t[1]);
    assert((s + t)[8 * j + 2] == t[2]);
    assert((s + t)[8 * j + 3] == t[3]);
    assert((s + t)[8 * j + 4] == t[4]);
    assert((s + t)[8 * j + 5] == t[5]);
    assert((s + t)[8 * j + 6] == t[6]);
    assert((s + t)[8 * j + 7] == t[7]);
}

/// Top-bits agreement is monotone: if two words agree above bit `q` (from the
/// most significant end, everything at shift distance `q` and above), they
/// agree above any larger shift distance `rz`.
#[verifier::rlimit(100)]
proof fn bv_agree_top(a: u64, b: u64, q: u64, rz: u64)
    by (bit_vector)
    requires
        q <= rz,
        a >> q == b >> q,
    ensures
        a >> rz == b >> rz,
{
}

/// Two words that agree on their top `off + w` bits give the same in-word
/// extraction for a field of `w` bits at offset `off`.
#[verifier::rlimit(100)]
proof fn bv_agree_extract(a: u64, b: u64, off: u64, w: u64, lz: u64)
    by (bit_vector)
    requires
        1 <= w,
        w + lz == 64,
        off + w <= 64,
        a >> ((64 - off - w) as u64) == b >> ((64 - off - w) as u64),
    ensures
        (a << off) >> lz == (b << off) >> lz,
{
}

/// An in-word extraction of `w` bits is bounded by `2^w`.
proof fn bv_extract_bound(x: u64, off: u64, w: u64, lz: u64)
    by (bit_vector)
    requires
        1 <= w <= 64,
        w + lz == 64,
        off + w <= 64,
    ensures
        ((x << off) >> lz) >> w == 0,
{
}

/// A straddling extraction of `w` bits is bounded by `2^w`.
proof fn bv_straddle_bound(x: u64, y: u64, off: u64, w: u64, sw: u64)
    by (bit_vector)
    requires
        1 <= w <= 64,
        off < 64,
        off + w == 64 + sw,
        1 <= sw,
    ensures
        (((((x << off) >> off) << sw) | (y >> ((64 - sw) as u64))) >> w) == 0,
{
}

/// The exec code turns a bit index into a word-aligned byte index with
/// shifts and a mask; these equal division and remainder by 64.
pub proof fn lemma_bit_index_split(bi: u64)
    by (bit_vector)
    ensures
        bi >> 6u64 == bi / 64,
        bi & 63u64 == bi % 64,
        (bi >> 6u64) << 3u64 == (bi / 64) * 8,
{
}

/// Rounding up to the next multiple of 64 adds one quotient step exactly when
/// the remainder is not zero.
pub proof fn lemma_ceil64(x: int)
    requires
        x >= 0,
    ensures
        (x + 63) / 64 == x / 64 + if x % 64 == 0 { 0int } else { 1int },
{
    lemma_fundamental_div_mod(x, 64);
    let q = x / 64;
    let r = x % 64;
    if r == 0 {
        lemma_div64(x + 63, q);
    } else {
        lemma_div64(x + 63, q + 1);
    }
}

/// ORing a value into the staging word at offset `off` leaves the top `off`
/// bits of the word as they were.
pub(crate) proof fn bv_patch_keeps_top(c: u64, v: u64, off: u64, lz: u64)
    by (bit_vector)
    requires
        off < 64,
    ensures
        (c | ((v << lz) >> off)) >> ((64 - off) as u64) == c >> ((64 - off) as u64),
{
}

/// Writing a `w`-bit value at offset `off` of a staging word whose bits at
/// and below the offset are clear makes the value readable back at that
/// offset; when the element does not fill the word, the bits past it stay
/// clear.
#[verifier::rlimit(100)]
pub(crate) proof fn bv_push_fits(c: u64, v: u64, off: u64, w: u64, lz: u64)
    by (bit_vector)
    requires
        1 <= w,
        w + lz == 64,
        off + w <= 64,
        c << off == 0,
        w < 64 ==> v >> w == 0,
    ensures
        ((c | ((v << lz) >> off)) << off) >> lz == v,
        off + w < 64 ==> (c | ((v << lz) >> off)) << ((off + w) as u64) == 0,
{
}

/// Writing a value that straddles the word boundary: the word being emitted
/// carries the top `64 - off` bits of the value, the fresh staging word
/// carries its low `sw` bits, and reading both halves back recovers the
/// value.
#[verifier::rlimit(100)]
pub(crate) proof fn bv_push_straddle(c: u64, v: u64, off: u64, w: u64, lz: u64, sw: u64)
    by (bit_vector)
    requires
        1 <= w <= 64,
        w + lz == 64,
        off < 64,
        off + w == 64 + sw,
        1 <= sw,
        c << off == 0,
        w < 64 ==> v >> w == 0,
    ensures
        ((((c | ((v << lz) >> off)) << off) >> off) << sw)
            | ((v << ((64 - sw) as u64)) >> ((64 - sw) as u64)) == v,
        (v << ((64 - sw) as u64)) << sw == 0,
{
}

/// The words an element is read from lie within a buffer that holds the
/// rounded-up word count for all elements.
pub proof fn lemma_elem_in_bounds(total: int, first: int, w: int, i: int, buflen: int)
    requires
        1 <= w <= 64,
        0 <= first,
        0 <= i,
        first + i < total,
        8 * data_words(total, w) <= buflen,
    ensures
        ({
            let bi = w * (first + i);
            let wj = bi / 64;
            &&& 0 <= bi
            &&& 0 <= wj
            &&& 8 * wj + 8 <= buflen
            &&& bi % 64 + w > 64 ==> 8 * wj + 16 <= buflen
        }),
{
    let bi = w * (first + i);
    let b = total * w;
    lemma_mul_nonnegative(w, first + i);
    vstd::arithmetic::mul::lemma_mul_inequality(first + i + 1, total, w);
    assert(w * (first + i) + w == (first + i + 1) * w) by {
        vstd::arithmetic::mul::lemma_mul_is_distributive_add(w, first + i, 1);
        vstd::arithmetic::mul::lemma_mul_is_commutative(w, first + i + 1);
    }
    assert(bi + w <= total * w) by {
        vstd::arithmetic::mul::lemma_mul_is_commutative(total, w);
    }
    lemma_fundamental_div_mod(bi, 64);
    let wj = bi / 64;
    let off = bi % 64;
    // A word is in bounds when its index is below the rounded word count.
    assert(b + 63 >= 64 * (wj + 1));
    vstd::arithmetic::div_mod::lemma_div_is_ordered(64 * (wj + 1), b + 63, 64);
    lemma_div64(64 * (wj + 1), wj + 1);
    if off + w > 64 {
        assert(b + 63 >= 64 * (wj + 2));
        vstd::arithmetic::div_mod::lemma_div_is_ordered(64 * (wj + 2), b + 63, 64);
        lemma_div64(64 * (wj + 2), wj + 2);
    }
}

/// Any 64-bit value shifted right by 64 is zero.
pub(crate) proof fn bv_shr64(a: u64)
    by (bit_vector)
    ensures
        a >> 64u64 == 0,
{
}

/// Elements that lie wholly inside a word-aligned prefix read the same
/// whatever follows the prefix.
pub proof fn lemma_elems_in_prefix(s1: Seq<u8>, tail: Seq<u8>, w: int, count: int)
    requires
        0 <= w <= 64,
        0 <= count,
        s1.len() % 8 == 0,
        count * w <= 64 * (s1.len() as int / 8),
    ensures
        forall|i: int|
            0 <= i < count ==> elem_of(s1 + tail, 0, w, i) == elem_of(s1, 0, w, i),
{
    let wcap = s1.len() as int / 8;
    lemma_fundamental_div_mod(s1.len() as int, 8);
    assert forall|i: int| 0 <= i < count implies elem_of(s1 + tail, 0, w, i) == elem_of(
        s1,
        0,
        w,
        i,
    ) by {
        assert forall|j: int| 0 <= j < wcap implies word_at(s1 + tail, j) == word_at(s1, j) by {
            lemma_word_at_append(s1, tail, j);
        }
        bv_shr64(word_at(s1 + tail, wcap));
        bv_shr64(word_at(s1, wcap));
        vstd::arithmetic::mul::lemma_mul_inequality(i + 1, count, w);
        vstd::arithmetic::mul::lemma_mul_is_distributive_add_other_way(w, i, 1);
        vstd::arithmetic::mul::lemma_mul_basics(w);
        vstd::arithmetic::mul::lemma_mul_is_commutative(w, i);
        vstd::arithmetic::mul::lemma_mul_is_commutative(count, w);
        lemma_elem_of_agree(s1 + tail, s1, wcap, 64, 0, w, i);
    }
}

/// A value whose bits above `w` are clear is below `2^w`.
pub proof fn lemma_shr_zero_bound(r: u64, w: u64)
    requires
        w < 64,
        r >> w == 0,
    ensures
        (r as nat) < pow2(w as nat),
{
    lemma_u64_shr_is_div(r, w);
    assert(r as nat / pow2(w as nat) == 0);
    vstd::arithmetic::power2::lemma_pow2_pos(w as nat);
    vstd::arithmetic::div_mod::lemma_small_div_converse(r as int, pow2(w as nat) as int);
}

/// Every element of a packed buffer fits in `width` bits.
pub proof fn lemma_elem_of_fits(s: Seq<u8>, first: int, width: int, i: int)
    requires
        0 <= width <= 64,
        0 <= first,
        0 <= i,
    ensures
        fits_width(elem_of(s, first, width, i), width),
{
    if 0 < width < 64 {
        let bi = width * (first + i);
        lemma_mul_nonnegative(width, first + i);
        lemma_fundamental_div_mod(bi, 64);
        let wj = bi / 64;
        let off = bi % 64;
        let r = elem_of(s, first, width, i);
        if off + width <= 64 {
            bv_extract_bound(word_at(s, wj), off as u64, width as u64, (64 - width) as u64);
        } else {
            bv_straddle_bound(
                word_at(s, wj),
                word_at(s, wj + 1),
                off as u64,
                width as u64,
                (width - (64 - off)) as u64,
            );
        }
        lemma_shr_zero_bound(r, width as u64);
    } else if width == 0 {
        vstd::arithmetic::power2::lemma_pow2_pos(0);
    }
}

/// If two buffers have the same words below word `wcap` and agree on the top
/// `64 - q` bits of word `wcap`, every element that ends within those bits
/// reads the same from both.
pub proof fn lemma_elem_of_agree(
    s1: Seq<u8>,
    s2: Seq<u8>,
    wcap: int,
    q: int,
    first: int,
    width: int,
    i: int,
)
    requires
        0 <= width <= 64,
        0 <= first,
        0 <= i,
        0 <= q <= 64,
        0 <= wcap,
        forall|j: int| 0 <= j < wcap ==> word_at(s1, j) == word_at(s2, j),
        word_at(s1, wcap) >> (q as u64) == word_at(s2, wcap) >> (q as u64),
        width * (first + i) + width + q <= 64 * wcap + 64,
    ensures
        elem_of(s1, first, width, i) == elem_of(s2, first, width, i),
{
    if width > 0 {
        let bi = width * (first + i);
        lemma_mul_nonnegative(width, first + i);
        lemma_fundamental_div_mod(bi, 64);
        let wj = bi / 64;
        let off = bi % 64;
        if off + width <= 64 {
            // The element lies in the single word `wj`.
            if wj < wcap {
                assert(word_at(s1, wj) == word_at(s2, wj));
            } else {
                // `bi >= 64 * wcap`, so `wj == wcap` and the element sits in
                // the agreed-upon top bits of word `wcap`.
                assert(wj == wcap) by {
                    lemma_div64(bi, wcap);
                }
                bv_agree_top(
                    word_at(s1, wcap),
                    word_at(s2, wcap),
                    q as u64,
                    (64 - off - width) as u64,
                );
                bv_agree_extract(
                    word_at(s1, wcap),
                    word_at(s2, wcap),
                    off as u64,
                    width as u64,
                    (64 - width) as u64,
                );
            }
        } else {
            // The element straddles words `wj` and `wj + 1`.
            let sw = width - (64 - off);
            assert(wj + 1 <= wcap) by {
                lemma_div64(bi, wj);
            }
            assert(word_at(s1, wj) == word_at(s2, wj));
            if wj + 1 < wcap {
                assert(word_at(s1, wj + 1) == word_at(s2, wj + 1));
            } else {
                // The tail of the element occupies the top `sw` bits of word
                // `wcap`, which agree because `sw <= 64 - q`.
                bv_agree_top(
                    word_at(s1, wcap),
                    word_at(s2, wcap),
                    q as u64,
                    (64 - sw) as u64,
                );
            }
        }
    }
}

} // verus!
