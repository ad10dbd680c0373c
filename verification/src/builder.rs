//! Builders that pack elements into a byte buffer.
//!
//! The eager builder knows its width up front and streams bits into a
//! growing `BytesMut` word by word, keeping a 64-bit staging word. The
//! deferred-width builder buffers values and picks the minimal width at
//! finalization.

use vstd::prelude::*;
use vstd::arithmetic::div_mod::lemma_fundamental_div_mod;
use vstd::arithmetic::mul::{
    lemma_mul_inequality, lemma_mul_is_commutative, lemma_mul_is_distributive_add_other_way,
};
use vstd::arithmetic::power2::pow2;
use bytes::BytesMut;
use crate::bytebuf::{bytes_mut_put_u8, bytes_mut_reserve, bytes_mut_view};
use crate::control::{control_word, cw_bytes, expected_size, MAX_LOGARRAY_LEN};
use crate::error::LogArrayError;
use crate::width::{
    bit_width, calculate_width, lemma_fits_of_bit_width, lemma_max_bit_width_le,
    lemma_max_bit_width_push, max_bit_width,
};
use crate::model::{
    bv_patch_keeps_top, bv_push_fits, bv_push_straddle, data_size, data_words, elem_of, fits_width,
    lemma_ceil64, lemma_div64, lemma_elem_of_agree, lemma_elems_in_prefix, lemma_word_at_append,
    lemma_word_at_bytes, word_at, word_bytes,
};

verus! {

/// `s` is a complete trailer-layout encoding of `vals` at width `width`:
/// the packed data words followed by the 8-byte control word.
pub open spec fn encodes(s: Seq<u8>, vals: Seq<u64>, width: u8) -> bool {
    &&& s.len() == expected_size(vals.len() as int, width as int)
    &&& s.skip(s.len() - 8) == cw_bytes(vals.len() as u64, width)
    &&& forall|i: int| 0 <= i < vals.len() ==> elem_of(s, 0, width as int, i) == vals[i]
    &&& padded(s, vals.len() as int, width as int)
}

/// The bits of the last data word past the final element are zero.
pub open spec fn padded(s: Seq<u8>, len: int, width: int) -> bool {
    (len * width) % 64 != 0 ==> word_at(s, data_words(len, width) - 1) << (((len * width)
        % 64) as u64) == 0
}

/// `s` is a complete header-first encoding of `vals` at width `width`:
/// the 8-byte control word followed by the packed data words.
pub open spec fn encodes_header_first(s: Seq<u8>, vals: Seq<u64>, width: u8) -> bool {
    &&& s.len() == 8 + data_size(vals.len() as int, width as int)
    &&& s.take(8) == cw_bytes(vals.len() as u64, width)
    &&& forall|i: int| 0 <= i < vals.len() ==> elem_of(s.skip(8), 0, width as int, i) == vals[i]
    &&& padded(s.skip(8), vals.len() as int, width as int)
}

/// A `v >> w == 0` form of `fits_width`, for feeding the bit-vector lemmas.
proof fn lemma_fits_shr(v: u64, w: int)
    requires
        0 <= w,
        fits_width(v, w),
    ensures
        w < 64 ==> v >> (w as u64) == 0,
{
    if w < 64 {
        vstd::bits::lemma_u64_shr_is_div(v, w as u64);
        vstd::arithmetic::power2::lemma_pow2_pos(w as nat);
        vstd::arithmetic::div_mod::lemma_basic_div(v as int, pow2(w as nat) as int);
    }
}

/// Writes a log array into a `BytesMut` buffer, given the bit width of the
/// elements up front.
pub struct LogArrayBufBuilder {
    /// Destination of the log array data.
    buf: BytesMut,
    /// Bit width of an element.
    width: u8,
    /// Storage for the next word to be written to the buffer.
    current: u64,
    /// Bit offset in `current` for the msb of the next encoded element.
    offset: u8,
    /// Number of elements written to the buffer.
    count: u64,
    /// The buffer contents the builder started from.
    base: Ghost<Seq<u8>>,
    /// The values pushed so far.
    vals: Ghost<Seq<u64>>,
}

impl LogArrayBufBuilder {
    /// The full contents of the destination buffer.
    pub closed spec fn spec_buf(self) -> Seq<u8> {
        bytes_mut_view(self.buf)
    }

    /// The buffer contents present before building started.
    pub closed spec fn spec_base(self) -> Seq<u8> {
        self.base@
    }

    /// The values pushed so far.
    pub closed spec fn spec_vals(self) -> Seq<u64> {
        self.vals@
    }

    /// The bit width of an element.
    pub closed spec fn spec_width(self) -> u8 {
        self.width
    }

    /// The number of elements pushed so far.
    pub closed spec fn spec_count(self) -> u64 {
        self.count
    }

    /// The data words emitted so far.
    pub closed spec fn out(self) -> Seq<u8> {
        self.spec_buf().skip(self.base@.len() as int)
    }

    /// The emitted words together with the staging word: every pushed
    /// element can be read back from this sequence.
    pub closed spec fn staged(self) -> Seq<u8> {
        self.out() + word_bytes(self.current)
    }

    /// The builder invariant: the emitted bytes hold the whole words of the
    /// packed encoding, the staging word holds the pending bits with
    /// everything past the offset clear, and all pushed elements read back.
    pub closed spec fn wf(self) -> bool {
        &&& self.width <= 64
        &&& self.count == self.vals@.len()
        &&& self.count <= MAX_LOGARRAY_LEN
        &&& self.base@.len() <= self.spec_buf().len()
        &&& self.spec_buf().take(self.base@.len() as int) == self.base@
        &&& self.out().len() == 8 * (((self.count as int) * (self.width as int)) / 64)
        &&& self.offset == ((self.count as int) * (self.width as int)) % 64
        &&& self.offset < 64
        &&& self.current << (self.offset as u64) == 0
        &&& forall|i: int|
            0 <= i < self.count ==> elem_of(self.staged(), 0, self.width as int, i)
                == self.vals@[i]
        &&& forall|i: int|
            0 <= i < self.count ==> fits_width(#[trigger] self.vals@[i], self.width as int)
    }

    /// A fresh builder over `buf`, which may already hold bytes; the
    /// encoding is appended after them.
    pub fn new(buf: BytesMut, width: u8) -> (r: Self)
        requires
            width <= 64,
        ensures
            r.wf(),
            r.spec_width() == width,
            r.spec_count() == 0,
            r.spec_vals() == Seq::<u64>::empty(),
            r.spec_base() == bytes_mut_view(buf),
            r.spec_buf() == bytes_mut_view(buf),
    {
        let ghost base = bytes_mut_view(buf);
        let r = LogArrayBufBuilder {
            buf,
            width,
            current: 0,
            offset: 0,
            count: 0,
            base: Ghost(base),
            vals: Ghost(Seq::empty()),
        };
        proof {
            assert(r.spec_buf().take(base.len() as int) =~= base);
            assert(r.out() =~= Seq::<u8>::empty());
            assert(0u64 << 0u64 == 0) by (bit_vector);
        }
        r
    }

    /// Returns the number of elements pushed so far.
    pub fn count(&self) -> (r: u64)
        ensures
            r == self.spec_count(),
    {
        self.count
    }

    /// Grows the destination buffer's capacity for `additional` further
    /// elements; the contents are untouched.
    pub fn reserve(&mut self, additional: usize)
        requires
            additional * old(self).spec_width() <= usize::MAX,
        ensures
            final(self).spec_buf() == old(self).spec_buf(),
            final(self).spec_base() == old(self).spec_base(),
            final(self).spec_vals() == old(self).spec_vals(),
            final(self).spec_width() == old(self).spec_width(),
            final(self).spec_count() == old(self).spec_count(),
            old(self).wf() ==> final(self).wf(),
    {
        proof {
            lemma_mul_is_commutative(additional as int, self.width as int);
        }
        bytes_mut_reserve(&mut self.buf, additional * (self.width as usize) / 8);
    }

    /// Appends `val` to the log array.
    pub fn push(&mut self, val: u64)
        requires
            old(self).wf(),
            fits_width(val, old(self).spec_width() as int),
            old(self).spec_count() < MAX_LOGARRAY_LEN,
        ensures
            final(self).wf(),
            final(self).spec_width() == old(self).spec_width(),
            final(self).spec_base() == old(self).spec_base(),
            final(self).spec_vals() == old(self).spec_vals().push(val),
            final(self).spec_count() == old(self).spec_count() + 1,
            final(self).spec_buf().len() == old(self).spec_buf().len() + if ((old(
                self,
            ).spec_count() as int) * (old(self).spec_width() as int)) % 64 + old(
                self,
            ).spec_width() >= 64 {
                8int
            } else {
                0int
            },
            final(self).spec_buf().take(old(self).spec_buf().len() as int) == old(self).spec_buf(),
    {
        let ghost pre = *self;
        if self.width == 0 {
            // A value that fits in zero bits is zero and adds no bits to the
            // stream; only the count moves.
            self.count = self.count + 1;
            self.vals = Ghost(self.vals@.push(val));
            proof {
                vstd::arithmetic::power2::lemma2_to64();
                vstd::arithmetic::mul::lemma_mul_basics(pre.count as int);
                vstd::arithmetic::mul::lemma_mul_basics(pre.count as int + 1);
                assert forall|i: int| 0 <= i < self.count implies elem_of(
                    self.staged(),
                    0,
                    0,
                    i,
                ) == self.vals@[i] by {
                    assert(fits_width(self.vals@[i], 0));
                }
            }
            return;
        }
        let leading_zeros: u8 = 64 - self.width;
        self.count = self.count + 1;
        self.current = self.current | (val << (leading_zeros as u64) >> (self.offset as u64));
        let new_offset_sum: u8 = self.offset + self.width;
        if new_offset_sum >= 64 {
            // The staging word is full: emit it and restart the staging word
            // with the low bits of `val` that did not fit.
            let ghost emit = self.current;
            put_word(&mut self.buf, self.current);
            self.offset = new_offset_sum - 64;
            self.current = if self.offset == 0 {
                0
            } else {
                val << ((64 - self.offset) as u64)
            };
            self.vals = Ghost(self.vals@.push(val));
            proof {
                let w = pre.width as int;
                let c0 = pre.count as int;
                let off0 = pre.offset as int;
                let cur = pre.current;
                let out0 = pre.out();
                let dd = (c0 * w) / 64;
                let sw = off0 + w - 64;
                lemma_fundamental_div_mod(c0 * w, 64);
                lemma_mul_is_distributive_add_other_way(w, c0, 1);
                vstd::arithmetic::mul::lemma_mul_basics(w);
                lemma_mul_is_commutative(c0, w);
                lemma_mul_is_commutative(c0 + 1, w);
                lemma_div64((c0 + 1) * w, dd + 1);
                lemma_fits_shr(val, w);
                // The new buffer keeps the base prefix and appends one word.
                assert(self.spec_buf().take(pre.base@.len() as int) =~= pre.base@);
                assert(self.out() =~= out0 + word_bytes(emit));
                assert(self.staged() =~= (out0 + word_bytes(emit)) + word_bytes(self.current));
                // Word identities of the old and new staged sequences.
                vstd::arithmetic::div_mod::lemma_mod_multiples_basic(dd, 8);
                vstd::arithmetic::div_mod::lemma_fundamental_div_mod_converse(
                    out0.len() as int,
                    8,
                    dd,
                    0,
                );
                lemma_word_at_bytes(out0, cur);
                lemma_word_at_bytes(out0, emit);
                lemma_word_at_append(out0 + word_bytes(emit), word_bytes(self.current), dd);
                vstd::arithmetic::div_mod::lemma_mod_multiples_basic(dd + 1, 8);
                vstd::arithmetic::div_mod::lemma_fundamental_div_mod_converse(
                    out0.len() as int + 8,
                    8,
                    dd + 1,
                    0,
                );
                lemma_word_at_bytes(out0 + word_bytes(emit), self.current);
                if sw == 0 {
                    assert(0u64 << 0u64 == 0) by (bit_vector);
                } else {
                    bv_push_straddle(
                        cur,
                        val,
                        off0 as u64,
                        w as u64,
                        (64 - w) as u64,
                        sw as u64,
                    );
                }
                // The new element reads back as `val`.
                lemma_div64(c0 * w, dd);
                if sw == 0 {
                    bv_push_fits(cur, val, off0 as u64, w as u64, (64 - w) as u64);
                }
                assert(elem_of(self.staged(), 0, w, c0) == val);
                // The earlier elements are untouched: the emitted word agrees
                // with the old staging word on its top `off0` bits.
                bv_patch_keeps_top(cur, val, off0 as u64, (64 - w) as u64);
                assert forall|i: int| 0 <= i < c0 implies elem_of(self.staged(), 0, w, i)
                    == pre.vals@[i] by {
                    assert forall|j: int| 0 <= j < dd implies word_at(pre.staged(), j) == word_at(
                        self.staged(),
                        j,
                    ) by {
                        lemma_word_at_append(out0, word_bytes(cur), j);
                        lemma_word_at_append(out0 + word_bytes(emit), word_bytes(self.current), j);
                        lemma_word_at_append(out0, word_bytes(emit), j);
                    }
                    lemma_mul_inequality(i + 1, c0, w);
                    lemma_mul_is_distributive_add_other_way(w, i, 1);
                    vstd::arithmetic::mul::lemma_mul_is_commutative(w, i);
                    lemma_elem_of_agree(pre.staged(), self.staged(), dd, 64 - off0, 0, w, i);
                }
            }
        } else {
            self.offset = new_offset_sum;
            self.vals = Ghost(self.vals@.push(val));
            proof {
                let w = pre.width as int;
                let c0 = pre.count as int;
                let off0 = pre.offset as int;
                let cur = pre.current;
                let out0 = pre.out();
                let dd = (c0 * w) / 64;
                lemma_fundamental_div_mod(c0 * w, 64);
                lemma_mul_is_distributive_add_other_way(w, c0, 1);
                vstd::arithmetic::mul::lemma_mul_basics(w);
                lemma_mul_is_commutative(c0, w);
                lemma_mul_is_commutative(c0 + 1, w);
                lemma_div64((c0 + 1) * w, dd);
                lemma_fits_shr(val, w);
                bv_push_fits(cur, val, off0 as u64, w as u64, (64 - w) as u64);
                // Word identities: the emitted words are unchanged, only the
                // staging word gained bits below the old offset.
                assert(self.out() =~= out0);
                vstd::arithmetic::div_mod::lemma_mod_multiples_basic(dd, 8);
                vstd::arithmetic::div_mod::lemma_fundamental_div_mod_converse(
                    out0.len() as int,
                    8,
                    dd,
                    0,
                );
                lemma_word_at_bytes(out0, cur);
                lemma_word_at_bytes(out0, self.current);
                // The new element reads back as `val`.
                lemma_div64(c0 * w, dd);
                assert(elem_of(self.staged(), 0, w, c0) == val);
                // The earlier elements are untouched.
                bv_patch_keeps_top(cur, val, off0 as u64, (64 - w) as u64);
                assert forall|i: int| 0 <= i < c0 implies elem_of(self.staged(), 0, w, i)
                    == pre.vals@[i] by {
                    assert forall|j: int| 0 <= j < dd implies word_at(pre.staged(), j) == word_at(
                        self.staged(),
                        j,
                    ) by {
                        lemma_word_at_append(out0, word_bytes(cur), j);
                        lemma_word_at_append(out0, word_bytes(self.current), j);
                    }
                    lemma_mul_inequality(i + 1, c0, w);
                    lemma_mul_is_distributive_add_other_way(w, i, 1);
                    vstd::arithmetic::mul::lemma_mul_is_commutative(w, i);
                    lemma_elem_of_agree(pre.staged(), self.staged(), dd, 64 - off0, 0, w, i);
                }
            }
        }
    }

    /// Whether `val` is representable in `width` bits.
    pub fn value_fits(val: u64, width: u8) -> (r: bool)
        ensures
            r == fits_width(val, width as int),
    {
        if width >= 64 {
            true
        } else {
            let r = val >> (width as u64) == 0;
            proof {
                if fits_width(val, width as int) {
                    lemma_fits_shr(val, width as int);
                }
                if val >> (width as u64) == 0 {
                    crate::model::lemma_shr_zero_bound(val, width as u64);
                }
            }
            r
        }
    }

    /// The checked form of `push`: reports a value that does not fit in the
    /// builder's width instead of demanding it up front.
    pub fn try_push(&mut self, val: u64) -> (r: Result<(), LogArrayError>)
        requires
            old(self).wf(),
            old(self).spec_count() < MAX_LOGARRAY_LEN,
        ensures
            final(self).wf(),
            final(self).spec_width() == old(self).spec_width(),
            final(self).spec_base() == old(self).spec_base(),
            fits_width(val, old(self).spec_width() as int) ==> (r matches Ok(()) && final(self).spec_vals() == old(self).spec_vals().push(val) && final(self).spec_count() == old(self).spec_count() + 1),
            !fits_width(val, old(self).spec_width() as int) ==> (r matches Err(e) && e
                == LogArrayError::ValueExceedsWidth(val, old(self).spec_width()) && *final(self)
                == *old(self)),
    {
        if Self::value_fits(val, self.width) {
            self.push(val);
            Ok(())
        } else {
            Err(LogArrayError::ValueExceedsWidth(val, self.width))
        }
    }

    /// Appends every value of `vals`, in order.
    pub fn push_vec(&mut self, vals: Vec<u64>)
        requires
            old(self).wf(),
            forall|i: int|
                0 <= i < vals@.len() ==> fits_width(
                    #[trigger] vals@[i],
                    old(self).spec_width() as int,
                ),
            old(self).spec_count() + vals@.len() <= MAX_LOGARRAY_LEN,
        ensures
            final(self).wf(),
            final(self).spec_width() == old(self).spec_width(),
            final(self).spec_base() == old(self).spec_base(),
            final(self).spec_vals() == old(self).spec_vals() + vals@,
            final(self).spec_count() == old(self).spec_count() + vals@.len(),
    {
        let ghost pre = *self;
        let mut i: usize = 0;
        while i < vals.len()
            invariant
                i <= vals@.len(),
                forall|j: int|
                    0 <= j < vals@.len() ==> fits_width(
                        #[trigger] vals@[j],
                        pre.spec_width() as int,
                    ),
                pre.spec_count() + vals@.len() <= MAX_LOGARRAY_LEN,
                self.wf(),
                self.spec_width() == pre.spec_width(),
                self.spec_base() == pre.spec_base(),
                self.spec_vals() == pre.spec_vals() + vals@.take(i as int),
                self.spec_count() == pre.spec_count() + i,
            decreases vals@.len() - i,
        {
            self.push(vals[i]);
            proof {
                assert(pre.spec_vals() + vals@.take(i as int) + seq![vals@[i as int]]
                    =~= pre.spec_vals() + vals@.take(i + 1));
                assert(self.spec_vals() =~= pre.spec_vals() + vals@.take(i + 1));
            }
            i = i + 1;
        }
        proof {
            assert(vals@.take(vals@.len() as int) =~= vals@);
        }
    }

    /// Emits the staging word if any bits are pending, completing the data
    /// words: afterwards the bytes past the base are word-aligned and every
    /// element reads back from them.
    fn finalize_data(&mut self)
        requires
            old(self).wf(),
        ensures
            final(self).spec_base() == old(self).spec_base(),
            final(self).spec_vals() == old(self).spec_vals(),
            final(self).spec_width() == old(self).spec_width(),
            final(self).spec_count() == old(self).spec_count(),
            final(self).spec_base().len() <= final(self).spec_buf().len(),
            final(self).spec_buf().take(final(self).spec_base().len() as int)
                == final(self).spec_base(),
            final(self).out().len() == data_size(
                old(self).spec_count() as int,
                old(self).spec_width() as int,
            ),
            final(self).out().len() % 8 == 0,
            forall|i: int|
                0 <= i < old(self).spec_count() ==> elem_of(
                    final(self).out(),
                    0,
                    old(self).spec_width() as int,
                    i,
                ) == old(self).spec_vals()[i],
            padded(
                final(self).out(),
                old(self).spec_count() as int,
                old(self).spec_width() as int,
            ),
    {
        let ghost pre = *self;
        let emit_tail = self.offset != 0;
        if emit_tail {
            put_word(&mut self.buf, self.current);
        }
        proof {
            let w = pre.width as int;
            let c0 = pre.count as int;
            let out0 = pre.out();
            let dd = (c0 * w) / 64;
            lemma_fundamental_div_mod(c0 * w, 64);
            lemma_ceil64(c0 * w);
            vstd::arithmetic::div_mod::lemma_mod_multiples_basic(dd, 8);
            vstd::arithmetic::div_mod::lemma_mod_multiples_basic(dd + 1, 8);
            vstd::arithmetic::div_mod::lemma_fundamental_div_mod_converse(
                out0.len() as int,
                8,
                dd,
                0,
            );
            if emit_tail {
                assert(self.spec_buf().take(pre.base@.len() as int) =~= pre.base@);
                assert(self.out() =~= out0 + word_bytes(pre.current));
                assert(self.out() =~= pre.staged());
                // The emitted tail word is the staging word, whose bits past
                // the offset are clear.
                lemma_word_at_bytes(out0, pre.current);
            } else {
                // No pending bits: the elements end exactly at the emitted
                // words, so dropping the staging word changes nothing.
                lemma_elems_in_prefix(out0, word_bytes(pre.current), w, c0);
                assert(out0 + word_bytes(pre.current) =~= pre.staged());
            }
        }
    }

    /// Completes the encoding: emits any pending data bits and the control
    /// word, and yields the destination buffer, which now holds the bytes it
    /// started with followed by a complete trailer-layout encoding.
    pub fn finalize(self) -> (r: BytesMut)
        requires
            self.wf(),
        ensures
            self.spec_base().len() <= bytes_mut_view(r).len(),
            bytes_mut_view(r).take(self.spec_base().len() as int) == self.spec_base(),
            encodes(
                bytes_mut_view(r).skip(self.spec_base().len() as int),
                self.spec_vals(),
                self.spec_width(),
            ),
    {
        let mut b = self;
        b.finalize_data();
        let cw = control_word(b.count, b.width);
        let ghost data = b.out();
        put_bytes(&mut b.buf, &cw);
        proof {
            let w = self.spec_width() as int;
            let c0 = self.spec_count() as int;
            let nb = self.spec_base().len() as int;
            assert(bytes_mut_view(b.buf).take(nb) =~= self.spec_base());
            let segment = bytes_mut_view(b.buf).skip(nb);
            assert(segment =~= data + cw@);
            assert(segment.skip(segment.len() - 8) =~= cw@);
            lemma_mul_is_commutative(data.len() as int / 8, 8);
            vstd::arithmetic::div_mod::lemma_mod_multiples_basic(
                (c0 * w + 63) / 64,
                8,
            );
            lemma_mul_is_commutative((c0 * w + 63) / 64, 8);
            vstd::arithmetic::div_mod::lemma_fundamental_div_mod_converse(
                data.len() as int,
                8,
                (c0 * w + 63) / 64,
                0,
            );
            lemma_fundamental_div_mod(c0 * w + 63, 64);
            assert(c0 * w <= 64 * (data.len() as int / 8));
            lemma_elems_in_prefix(data, cw@, w, c0);
            if (c0 * w) % 64 != 0 {
                // The padded last data word reads the same after the control
                // word is appended.
                lemma_fundamental_div_mod(c0 * w, 64);
                vstd::arithmetic::div_mod::lemma_div_is_ordered(64, c0 * w + 63, 64);
                lemma_div64(64, 1);
                lemma_word_at_append(data, cw@, (c0 * w + 63) / 64 - 1);
            }
            assert forall|i: int| 0 <= i < c0 implies elem_of(segment, 0, w, i)
                == self.spec_vals()[i] by {
                assert(elem_of(data + cw@, 0, w, i) == elem_of(data, 0, w, i));
            }
        }
        b.buf
    }

    /// Completes the data words without writing a control word; used when
    /// the control word was already written as a header.
    pub fn finalize_without_control_word(self) -> (r: BytesMut)
        requires
            self.wf(),
        ensures
            self.spec_base().len() <= bytes_mut_view(r).len(),
            bytes_mut_view(r).take(self.spec_base().len() as int) == self.spec_base(),
            bytes_mut_view(r).skip(self.spec_base().len() as int).len() == data_size(
                self.spec_count() as int,
                self.spec_width() as int,
            ),
            forall|i: int|
                0 <= i < self.spec_count() ==> elem_of(
                    bytes_mut_view(r).skip(self.spec_base().len() as int),
                    0,
                    self.spec_width() as int,
                    i,
                ) == self.spec_vals()[i],
            padded(
                bytes_mut_view(r).skip(self.spec_base().len() as int),
                self.spec_count() as int,
                self.spec_width() as int,
            ),
    {
        let mut b = self;
        b.finalize_data();
        b.buf
    }
}

/// Appends the 8 big-endian bytes of `w` to the buffer.
fn put_word(buf: &mut BytesMut, w: u64)
    ensures
        bytes_mut_view(*final(buf)) == bytes_mut_view(*old(buf)) + word_bytes(w),
{
    proof {
        assert(((w >> 56u64) & 0xff) < 256 && ((w >> 48u64) & 0xff) < 256 && ((w >> 40u64) & 0xff)
            < 256 && ((w >> 32u64) & 0xff) < 256 && ((w >> 24u64) & 0xff) < 256 && ((w >> 16u64)
            & 0xff) < 256 && ((w >> 8u64) & 0xff) < 256 && (w & 0xff) < 256) by (bit_vector);
    }
    bytes_mut_put_u8(buf, ((w >> 56u64) & 0xff) as u8);
    bytes_mut_put_u8(buf, ((w >> 48u64) & 0xff) as u8);
    bytes_mut_put_u8(buf, ((w >> 40u64) & 0xff) as u8);
    bytes_mut_put_u8(buf, ((w >> 32u64) & 0xff) as u8);
    bytes_mut_put_u8(buf, ((w >> 24u64) & 0xff) as u8);
    bytes_mut_put_u8(buf, ((w >> 16u64) & 0xff) as u8);
    bytes_mut_put_u8(buf, ((w >> 8u64) & 0xff) as u8);
    bytes_mut_put_u8(buf, (w & 0xff) as u8);
    proof {
        assert(bytes_mut_view(*buf) =~= bytes_mut_view(*old(buf)) + word_bytes(w));
    }
}

/// Appends all bytes of `v` to the buffer.
fn put_bytes(buf: &mut BytesMut, v: &Vec<u8>)
    ensures
        bytes_mut_view(*final(buf)) == bytes_mut_view(*old(buf)) + v@,
{
    let mut i: usize = 0;
    while i < v.len()
        invariant
            i <= v@.len(),
            bytes_mut_view(*buf) =~= bytes_mut_view(*old(buf)) + v@.take(i as int),
        decreases v@.len() - i,
    {
        bytes_mut_put_u8(buf, v[i]);
        i = i + 1;
        proof {
            assert(bytes_mut_view(*buf) =~= bytes_mut_view(*old(buf)) + v@.take(i as int));
        }
    }
    proof {
        assert(bytes_mut_view(*buf) =~= bytes_mut_view(*old(buf)) + v@);
    }
}

/// Writes a log array into a `BytesMut` buffer, choosing the bit width at
/// finalization: the minimal width that holds every buffered value.
pub struct LateLogArrayBufBuilder {
    /// Destination of the log array data.
    buf: BytesMut,
    /// The buffered values.
    pub vals: Vec<u64>,
    /// The largest minimal bit width seen so far.
    width: u8,
}

impl LateLogArrayBufBuilder {
    /// The buffer contents present before building started.
    pub closed spec fn spec_base(self) -> Seq<u8> {
        bytes_mut_view(self.buf)
    }

    /// The buffered values.
    pub closed spec fn spec_vals(self) -> Seq<u64> {
        self.vals@
    }

    /// The width the builder would encode with now.
    pub closed spec fn spec_width(self) -> u8 {
        self.width
    }

    /// The tracked width covers every buffered value. Popping a value keeps
    /// the width it contributed, so the width can exceed the current maximum.
    pub closed spec fn wf(self) -> bool {
        &&& max_bit_width(self.vals@) <= self.width <= 64
    }

    /// A fresh builder over `buf`, which may already hold bytes; the
    /// encoding is appended after them.
    pub fn new(buf: BytesMut) -> (r: Self)
        ensures
            r.wf(),
            r.spec_vals() == Seq::<u64>::empty(),
            r.spec_width() == 0,
            r.spec_base() == bytes_mut_view(buf),
    {
        LateLogArrayBufBuilder { buf, vals: Vec::new(), width: 0 }
    }

    /// Returns the number of values buffered so far.
    pub fn count(&self) -> (r: u64)
        ensures
            r == self.spec_vals().len(),
    {
        self.vals.len() as u64
    }

    /// Buffers `val`, widening the tracked width to hold it if needed.
    pub fn push(&mut self, val: u64)
        requires
            old(self).wf(),
        ensures
            final(self).wf(),
            final(self).spec_vals() == old(self).spec_vals().push(val),
            final(self).spec_base() == old(self).spec_base(),
            final(self).spec_width() as nat == if bit_width(val as nat) > old(self).spec_width() as nat {
                bit_width(val as nat)
            } else {
                old(self).spec_width() as nat
            },
    {
        let ghost pre = *self;
        self.vals.push(val);
        let width = calculate_width(val);
        if self.width < width {
            self.width = width;
        }
        proof {
            lemma_max_bit_width_push(pre.vals@, val);
        }
    }

    /// Buffers every value of `vals`, in order.
    pub fn push_vec(&mut self, vals: Vec<u64>)
        requires
            old(self).wf(),
        ensures
            final(self).wf(),
            final(self).spec_vals() == old(self).spec_vals() + vals@,
            final(self).spec_base() == old(self).spec_base(),
            final(self).spec_width() as nat == if max_bit_width(vals@) > old(self).spec_width() as nat {
                max_bit_width(vals@)
            } else {
                old(self).spec_width() as nat
            },
    {
        let ghost pre = *self;
        let mut i: usize = 0;
        while i < vals.len()
            invariant
                pre.wf(),
                i <= vals@.len(),
                self.wf(),
                self.spec_vals() == pre.spec_vals() + vals@.take(i as int),
                self.spec_base() == pre.spec_base(),
                self.spec_width() as nat == if max_bit_width(vals@.take(i as int))
                    > pre.spec_width() as nat {
                    max_bit_width(vals@.take(i as int))
                } else {
                    pre.spec_width() as nat
                },
            decreases vals@.len() - i,
        {
            self.push(vals[i]);
            proof {
                assert(pre.spec_vals() + vals@.take(i as int) + seq![vals@[i as int]]
                    =~= pre.spec_vals() + vals@.take(i + 1));
                assert(self.spec_vals() =~= pre.spec_vals() + vals@.take(i + 1));
                assert(vals@.take(i + 1).drop_last() =~= vals@.take(i as int));
            }
            i = i + 1;
        }
        proof {
            assert(vals@.take(vals@.len() as int) =~= vals@);
        }
    }

    /// The most recently buffered value, if any.
    pub fn last(&mut self) -> (r: Option<u64>)
        ensures
            *final(self) == *old(self),
            old(self).spec_vals().len() == 0 ==> r is None,
            old(self).spec_vals().len() > 0 ==> r == Some(old(self).spec_vals().last()),
    {
        if self.vals.len() == 0 {
            None
        } else {
            Some(self.vals[self.vals.len() - 1])
        }
    }

    /// Removes and returns the most recently buffered value, if any. The
    /// tracked width is not narrowed.
    pub fn pop(&mut self) -> (r: Option<u64>)
        requires
            old(self).wf(),
        ensures
            final(self).wf(),
            final(self).spec_base() == old(self).spec_base(),
            final(self).spec_width() == old(self).spec_width(),
            old(self).spec_vals().len() == 0 ==> (r is None && final(self).spec_vals() == old(self).spec_vals()),
            old(self).spec_vals().len() > 0 ==> (r == Some(old(self).spec_vals().last())
                && final(self).spec_vals() == old(self).spec_vals().drop_last()),
    {
        let ghost pre = *self;
        if self.vals.len() == 0 {
            None
        } else {
            let r = self.vals.pop();
            proof {
                lemma_max_bit_width_drop_last(pre.vals@);
            }
            r
        }
    }

    /// Completes a trailer-layout encoding at the tracked width and yields
    /// the destination buffer.
    pub fn finalize(self) -> (r: BytesMut)
        requires
            self.wf(),
            self.spec_vals().len() <= MAX_LOGARRAY_LEN,
        ensures
            bytes_mut_view(r).take(self.spec_base().len() as int) == self.spec_base(),
            encodes(
                bytes_mut_view(r).skip(self.spec_base().len() as int),
                self.spec_vals(),
                self.spec_width(),
            ),
    {
        proof {
            lemma_all_fit(self.vals@, self.width);
        }
        let mut builder = LogArrayBufBuilder::new(self.buf, self.width);
        builder.push_vec(self.vals);
        proof {
            assert(builder.spec_vals() =~= self.spec_vals());
        }
        builder.finalize()
    }

    /// Completes a header-first encoding at the tracked width and yields the
    /// destination buffer: the control word, then the data words, with no
    /// trailing control word.
    pub fn finalize_header_first(self) -> (r: BytesMut)
        requires
            self.wf(),
            self.spec_vals().len() <= MAX_LOGARRAY_LEN,
        ensures
            bytes_mut_view(r).take(self.spec_base().len() as int) == self.spec_base(),
            encodes_header_first(
                bytes_mut_view(r).skip(self.spec_base().len() as int),
                self.spec_vals(),
                self.spec_width(),
            ),
    {
        proof {
            lemma_all_fit(self.vals@, self.width);
        }
        let mut buf = self.buf;
        let cw = control_word(self.vals.len() as u64, self.width);
        put_bytes(&mut buf, &cw);
        let ghost mid = bytes_mut_view(buf);
        let mut builder = LogArrayBufBuilder::new(buf, self.width);
        builder.push_vec(self.vals);
        proof {
            assert(builder.spec_vals() =~= self.spec_vals());
        }
        let out = builder.finalize_without_control_word();
        proof {
            let nb = self.spec_base().len() as int;
            assert(mid == self.spec_base() + cw@);
            assert(bytes_mut_view(out).take(nb) =~= self.spec_base());
            let segment = bytes_mut_view(out).skip(nb);
            let data = bytes_mut_view(out).skip(mid.len() as int);
            assert(bytes_mut_view(out) =~= mid + data);
            assert(segment.take(8) =~= cw@);
            assert(segment.skip(8) =~= data);
        }
        out
    }
}

/// Dropping the last value never raises the maximal width.
proof fn lemma_max_bit_width_drop_last(vals: Seq<u64>)
    requires
        vals.len() > 0,
    ensures
        max_bit_width(vals.drop_last()) <= max_bit_width(vals),
{
}

/// Every value of the sequence fits in any width at least the maximal one.
proof fn lemma_all_fit(vals: Seq<u64>, width: u8)
    requires
        max_bit_width(vals) <= width,
    ensures
        forall|i: int| 0 <= i < vals.len() ==> fits_width(#[trigger] vals[i], width as int),
{
    assert forall|i: int| 0 <= i < vals.len() implies fits_width(
        #[trigger] vals[i],
        width as int,
    ) by {
        lemma_max_bit_width_le(vals, i);
        lemma_fits_of_bit_width(vals[i], width as int);
    }
}

} // verus!
