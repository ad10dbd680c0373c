//! The pull-based streaming decoder: consumes whole 64-bit words from an
//! incoming byte queue and yields one element per call, without ever holding
//! the whole buffer.

use vstd::prelude::*;
use vstd::arithmetic::div_mod::{
    lemma_fundamental_div_mod, lemma_fundamental_div_mod_converse,
};
use vstd::arithmetic::mul::{
    lemma_mul_basics, lemma_mul_is_commutative, lemma_mul_is_distributive_add_other_way,
    lemma_mul_nonnegative,
};
use bytes::BytesMut;
use crate::bytebuf::{bytes_mut_advance, bytes_mut_byte_at, bytes_mut_clear, bytes_mut_len,
    bytes_mut_view};
use crate::model::{
    elem_of, lemma_div64, lemma_elems_in_prefix, lemma_word_at_append, lemma_word_at_concat,
    word_at,
};

verus! {

/// A stateful decoder for one log array's data words.
///
/// The ghost `consumed` and `emitted` fields record the bytes taken off the
/// queue and the elements produced, so the contract can say that the decoder
/// replays exactly the packed elements of the stream.
pub struct LogArrayDecoder {
    /// Storage for the most recent word read from the buffer.
    current: u64,
    /// Bit width of an element.
    width: u8,
    /// Bit offset from the msb of `current` to the msb of the next element.
    offset: u8,
    /// Number of elements remaining to decode.
    remaining: u64,
    /// The bytes consumed from the queue so far.
    consumed: Ghost<Seq<u8>>,
    /// The elements produced so far.
    emitted: Ghost<Seq<u64>>,
}

impl LogArrayDecoder {
    /// The bit width of an element.
    pub closed spec fn spec_width(self) -> u8 {
        self.width
    }

    /// The number of elements still to decode.
    pub closed spec fn spec_remaining(self) -> u64 {
        self.remaining
    }

    /// The bytes consumed from the queue so far: always whole words.
    pub closed spec fn spec_consumed(self) -> Seq<u8> {
        self.consumed@
    }

    /// The elements produced so far.
    pub closed spec fn spec_emitted(self) -> Seq<u64> {
        self.emitted@
    }

    /// The next element cannot be decoded from the staging word alone: its
    /// bits run past the words consumed so far, so a fresh word is needed.
    pub open spec fn needs_new_word(self) -> bool {
        ((self.spec_emitted().len() + 1) as int) * (self.spec_width() as int) > 8
            * self.spec_consumed().len()
    }

    /// The decoder invariant: whole words consumed, the bit position agreed
    /// between offset and element count, the staging word the last word
    /// consumed, and every produced element equal to the packed element of
    /// the consumed bytes.
    pub closed spec fn wf(self) -> bool {
        &&& self.width <= 64
        &&& 1 <= self.offset <= 64
        &&& self.consumed@.len() % 8 == 0
        &&& (self.emitted@.len() as int) * (self.width as int) + 64 - self.offset == 64 * (
        self.consumed@.len() as int / 8)
        &&& self.consumed@.len() > 0 ==> self.current == word_at(
            self.consumed@,
            self.consumed@.len() as int / 8 - 1,
        )
        &&& forall|i: int|
            0 <= i < self.emitted@.len() ==> self.emitted@[i] == elem_of(
                self.consumed@,
                0,
                self.width as int,
                i,
            )
    }

    /// Construct a new `LogArrayDecoder` for `remaining` elements of
    /// `width` bits. The parameters are not validated against anything;
    /// validation of `width` and `remaining` comes from the control word.
    pub fn new_unchecked(width: u8, remaining: u64) -> (r: Self)
        requires
            width <= 64,
        ensures
            r.wf(),
            r.spec_width() == width,
            r.spec_remaining() == remaining,
            r.spec_consumed() == Seq::<u8>::empty(),
            r.spec_emitted() == Seq::<u64>::empty(),
    {
        let r = LogArrayDecoder {
            // The initial `current` is never read, because `offset` is 64.
            current: 0,
            offset: 64,
            width,
            remaining,
            consumed: Ghost(Seq::empty()),
            emitted: Ghost(Seq::empty()),
        };
        proof {
            lemma_mul_basics(width as int);
        }
        r
    }

    /// Decode the next element of the log array.
    ///
    /// Returns `Some(element)` when one could be decoded; `None` either when
    /// no elements remain (the queue is then cleared) or when fewer than 8
    /// bytes are queued and the next element needs a new word.
    pub fn decode(&mut self, bytes: &mut BytesMut) -> (r: Option<u64>)
        requires
            old(self).wf(),
        ensures
            final(self).wf(),
            final(self).spec_width() == old(self).spec_width(),
            old(self).spec_remaining() == 0 ==> (r is None && *final(self) == *old(self)
                && bytes_mut_view(*final(bytes)).len() == 0),
            old(self).spec_remaining() > 0 && r is None ==> (*final(self) == *old(self)
                && bytes_mut_view(*final(bytes)) == bytes_mut_view(*old(bytes))
                && bytes_mut_view(*old(bytes)).len() < 8 && old(self).needs_new_word()),
            old(self).spec_remaining() > 0 && (!old(self).needs_new_word() || bytes_mut_view(
                *old(bytes),
            ).len() >= 8) ==> r is Some,
            old(self).spec_remaining() > 0 ==> (r matches Some(v) ==> {
                &&& final(self).spec_remaining() == old(self).spec_remaining() - 1
                &&& final(self).spec_emitted() == old(self).spec_emitted().push(v)
                &&& v == elem_of(
                    final(self).spec_consumed(),
                    0,
                    old(self).spec_width() as int,
                    old(self).spec_emitted().len() as int,
                )
                &&& (final(self).spec_consumed() == old(self).spec_consumed()
                    && bytes_mut_view(*final(bytes)) == bytes_mut_view(*old(bytes)))
                    || (bytes_mut_view(*old(bytes)).len() >= 8 && final(self).spec_consumed()
                    == old(self).spec_consumed() + bytes_mut_view(*old(bytes)).take(8)
                    && bytes_mut_view(*final(bytes)) == bytes_mut_view(*old(bytes)).skip(8))
            }),
    {
        let ghost pre = *self;
        // If no elements remain to decode, clean up and exit.
        if self.remaining == 0 {
            bytes_mut_clear(bytes);
            return None;
        }
        // Elements of width 0 are always 0 and consume no bytes.
        if self.width == 0 {
            self.remaining = self.remaining - 1;
            self.emitted = Ghost(self.emitted@.push(0));
            proof {
                lemma_mul_basics(pre.emitted@.len() as int);
                lemma_mul_basics(pre.emitted@.len() as int + 1);
            }
            return Some(0);
        }
        let first_word = self.current;
        let offset = self.offset;
        let width = self.width;
        // This is the minimum number of leading zeros a decoded value has.
        let leading_zeros: u8 = 64 - width;
        // If the next element fits completely in `first_word`, return it.
        if offset + width <= 64 {
            self.offset = offset + width;
            self.remaining = self.remaining - 1;
            let v = first_word << (offset as u64) >> (leading_zeros as u64);
            self.emitted = Ghost(self.emitted@.push(v));
            proof {
                let w = width as int;
                let k = pre.emitted@.len() as int;
                let c = pre.consumed@.len() as int / 8;
                lemma_mul_nonnegative(k, w);
                lemma_mul_is_distributive_add_other_way(w, k, 1);
                lemma_mul_basics(w);
                lemma_mul_is_commutative(k, w);
                lemma_mul_is_commutative(k + 1, w);
                lemma_div64(k * w, c - 1);
            }
            return Some(v);
        }
        // We need another word. If a full word is not buffered, wait.
        if bytes_mut_len(bytes) < 8 {
            proof {
                let w = width as int;
                let k = pre.emitted@.len() as int;
                lemma_mul_is_distributive_add_other_way(w, k, 1);
                lemma_mul_basics(w);
                lemma_mul_is_commutative(k, w);
                lemma_mul_is_commutative(k + 1, w);
                lemma_fundamental_div_mod(pre.consumed@.len() as int, 8);
            }
            return None;
        }
        let ghost queued = bytes_mut_view(*bytes);
        let second_word = read_word_front(bytes);
        self.current = second_word;
        self.remaining = self.remaining - 1;
        self.consumed = Ghost(self.consumed@ + queued.take(8));
        proof {
            let w = width as int;
            let k = pre.emitted@.len() as int;
            let c = pre.consumed@.len() as int / 8;
            lemma_mul_nonnegative(k, w);
            lemma_mul_is_distributive_add_other_way(w, k, 1);
            lemma_mul_basics(w);
            lemma_mul_is_commutative(k, w);
            lemma_mul_is_commutative(k + 1, w);
            vstd::arithmetic::div_mod::lemma_mod_multiples_basic(c + 1, 8);
            lemma_fundamental_div_mod_converse(self.consumed@.len() as int, 8, c + 1, 0);
            lemma_word_at_concat(pre.consumed@, queued.take(8));
            // Earlier elements end within the previously consumed words.
            lemma_elems_in_prefix(pre.consumed@, queued.take(8), w, k);
            if pre.consumed@.len() > 0 {
                lemma_word_at_append(pre.consumed@, queued.take(8), c - 1);
            }
        }
        // If `offset` is 64, the element is wholly inside the new word.
        if offset == 64 {
            self.offset = width;
            let v = second_word >> (leading_zeros as u64);
            self.emitted = Ghost(self.emitted@.push(v));
            proof {
                let w = width as int;
                let k = pre.emitted@.len() as int;
                let c = pre.consumed@.len() as int / 8;
                lemma_div64(k * w, c);
                assert(second_word << 0u64 == second_word) by (bit_vector);
            }
            return Some(v);
        }
        // The element straddles `first_word` and `second_word`.
        let first_width = 64 - offset;
        let second_width = width - first_width;
        let first_part = first_word << (offset as u64) >> (offset as u64) << (second_width
            as u64);
        let second_part = second_word >> ((64 - second_width) as u64);
        self.offset = second_width;
        let v = first_part | second_part;
        self.emitted = Ghost(self.emitted@.push(v));
        proof {
            let w = width as int;
            let k = pre.emitted@.len() as int;
            let c = pre.consumed@.len() as int / 8;
            lemma_div64(k * w, c - 1);
        }
        Some(v)
    }
}

/// Consumes the first 8 bytes of the queue as one big-endian word.
fn read_word_front(b: &mut BytesMut) -> (w: u64)
    requires
        bytes_mut_view(*old(b)).len() >= 8,
    ensures
        bytes_mut_view(*final(b)) == bytes_mut_view(*old(b)).skip(8),
        w == word_at(bytes_mut_view(*old(b)).take(8), 0),
{
    let b0 = bytes_mut_byte_at(b, 0);
    let b1 = bytes_mut_byte_at(b, 1);
    let b2 = bytes_mut_byte_at(b, 2);
    let b3 = bytes_mut_byte_at(b, 3);
    let b4 = bytes_mut_byte_at(b, 4);
    let b5 = bytes_mut_byte_at(b, 5);
    let b6 = bytes_mut_byte_at(b, 6);
    let b7 = bytes_mut_byte_at(b, 7);
    bytes_mut_advance(b, 8);
    ((b0 as u64) << 56u64) | ((b1 as u64) << 48u64) | ((b2 as u64) << 40u64)
        | ((b3 as u64) << 32u64) | ((b4 as u64) << 24u64) | ((b5 as u64) << 16u64)
        | ((b6 as u64) << 8u64) | (b7 as u64)
}

/// Streaming decode produces the same sequence as indexed iteration: when
/// the bytes a decoder has consumed are a prefix of a full stream `s`, every
/// element it has emitted equals the packed element of `s` at the same
/// position — the value `entry` returns on the parsed array over the same
/// bytes.
pub proof fn lemma_streaming_matches_iteration(d: LogArrayDecoder, s: Seq<u8>)
    requires
        d.wf(),
        d.spec_consumed().len() <= s.len(),
        d.spec_consumed() == s.take(d.spec_consumed().len() as int),
    ensures
        d.spec_emitted() == crate::model::elems_of(
            s,
            0,
            d.spec_width() as int,
            d.spec_emitted().len() as int,
        ),
{
    let w = d.spec_width() as int;
    let k = d.spec_emitted().len() as int;
    let consumed = d.spec_consumed();
    let rest = s.skip(consumed.len() as int);
    assert(s =~= consumed + rest);
    lemma_mul_nonnegative(k, w);
    lemma_elems_in_prefix(consumed, rest, w, k);
    assert(d.spec_emitted() =~= crate::model::elems_of(s, 0, w, k));
}

} // verus!
