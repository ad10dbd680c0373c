//! The immutable packed-array view: parsing, indexed access, slicing and
//! iteration over a shared byte buffer.

use vstd::prelude::*;
use bytes::Bytes;
use crate::bytebuf::{
    bytes_advance, bytes_byte_at, bytes_clone, bytes_len, bytes_split_off, bytes_view,
};
use crate::control::{
    expected_size, cw_len_of, cw_width_of, logarray_length_from_len_width, read_control_word,
    read_control_word_trailing, MAX_LOGARRAY_LEN,
};
use crate::error::LogArrayError;
use crate::model::{
    data_size, elems_of, fits_width, lemma_bit_index_split,
    lemma_elem_in_bounds, lemma_elem_of_fits, word_at,
};

verus! {

/// An in-memory log array: an immutable view of `len` elements of `width`
/// bits each, packed into a shared byte buffer starting at element `first`
/// of the underlying layout.
pub struct LogArray {
    /// Index of the first accessible element: 0 for a freshly parsed array,
    /// the slice start for a slice.
    first: u64,
    /// Number of accessible elements.
    len: u64,
    /// Bit width of each element.
    width: u8,
    /// Shared reference to the input buffer. Index 0 points to the first
    /// byte of the first data word.
    input_buf: Bytes,
}

impl View for LogArray {
    type V = Seq<u64>;

    /// The sequence of element values the view exposes.
    closed spec fn view(&self) -> Seq<u64> {
        elems_of(bytes_view(self.input_buf), self.first as int, self.width as int, self.len as int)
    }
}

/// The view of a log array has exactly `spec_len` elements.
pub broadcast proof fn lemma_view_len(a: LogArray)
    ensures
        #[trigger] a@.len() == a.spec_len(),
{
}

impl LogArray {
    /// The index of the first accessible element.
    pub closed spec fn spec_first(self) -> u64 {
        self.first
    }

    /// The number of accessible elements.
    pub closed spec fn spec_len(self) -> u64 {
        self.len
    }

    /// The bit width of each element.
    pub closed spec fn spec_width(self) -> u8 {
        self.width
    }

    /// The bytes of the shared buffer.
    pub closed spec fn spec_buf(self) -> Seq<u8> {
        bytes_view(self.input_buf)
    }

    /// Well-formedness: the width is legal, the element range is within the
    /// control word's limit, and the buffer holds every word an element
    /// access can touch.
    pub closed spec fn wf(self) -> bool {
        &&& self.width <= 64
        &&& self.first + self.len <= MAX_LOGARRAY_LEN
        &&& data_size(self.first + self.len, self.width as int) <= self.spec_buf().len()
        &&& self.spec_buf().len() <= usize::MAX
    }

    /// Construct a `LogArray` by parsing a buffer in the trailer layout:
    /// data words followed by one control word.
    pub fn parse(input_buf: Bytes) -> (r: Result<LogArray, LogArrayError>)
        ensures
            ({
                let s = bytes_view(input_buf);
                let cw = s.skip(s.len() - 8);
                let len = cw_len_of(cw);
                let width = cw_width_of(cw);
                &&& s.len() < 8 ==> (r matches Err(e) && e == LogArrayError::InputBufferTooSmall(
                    s.len() as usize,
                ))
                &&& s.len() >= 8 && width > 64 ==> (r matches Err(e) && e
                    == LogArrayError::WidthTooLarge(width))
                &&& s.len() >= 8 && width <= 64 && s.len() != expected_size(
                    len as int,
                    width as int,
                ) ==> (r matches Err(e) && e == LogArrayError::UnexpectedInputBufferSize(
                    s.len() as u64,
                    expected_size(len as int, width as int) as u64,
                    len,
                    width,
                ))
                &&& s.len() >= 8 && width <= 64 && s.len() == expected_size(
                    len as int,
                    width as int,
                ) ==> (r matches Ok(a) && a.wf() && a.spec_first() == 0 && a.spec_len() == len
                    && a.spec_width() == width && a.spec_buf() == s && a@ == elems_of(
                    s,
                    0,
                    width as int,
                    len as int,
                ))
            }),
    {
        let input_buf_size = bytes_len(&input_buf);
        if let Err(e) = LogArrayError::validate_input_buf_size(input_buf_size) {
            return Err(e);
        }
        let cw = read_tail_control_word(&input_buf);
        let (len, width) = match read_control_word(cw.as_slice(), input_buf_size) {
            Ok(lw) => lw,
            Err(e) => {
                return Err(e);
            },
        };
        proof {
            crate::control::lemma_cw_len_bound(
                bytes_view(input_buf).skip(bytes_view(input_buf).len() - 8),
            );
        }
        Ok(LogArray { first: 0, len, width, input_buf })
    }

    /// Construct a `LogArray` by parsing a buffer in the header-first
    /// layout: one control word, the data words, then whatever trails them,
    /// which is handed back to the caller.
    pub fn parse_header_first(input_buf: Bytes) -> (r: Result<(LogArray, Bytes), LogArrayError>)
        ensures
            ({
                let s = bytes_view(input_buf);
                let cw = s.take(8);
                let len = cw_len_of(cw);
                let width = cw_width_of(cw);
                let dsize = data_size(len as int, width as int);
                &&& s.len() < 8 ==> (r matches Err(e) && e == LogArrayError::InputBufferTooSmall(
                    s.len() as usize,
                ))
                &&& s.len() >= 8 && width > 64 ==> (r matches Err(e) && e
                    == LogArrayError::WidthTooLarge(width))
                &&& s.len() >= 8 && width <= 64 && s.len() < expected_size(
                    len as int,
                    width as int,
                ) ==> (r matches Err(e) && e == LogArrayError::UnexpectedInputBufferSize(
                    s.len() as u64,
                    expected_size(len as int, width as int) as u64,
                    len,
                    width,
                ))
                &&& s.len() >= 8 && width <= 64 && s.len() >= expected_size(
                    len as int,
                    width as int,
                ) ==> (r matches Ok(p) && p.0.wf() && p.0.spec_first() == 0 && p.0.spec_len()
                    == len && p.0.spec_width() == width && p.0.spec_buf() == s.subrange(
                    8,
                    8 + dsize,
                ) && p.0@ == elems_of(s.subrange(8, 8 + dsize), 0, width as int, len as int)
                    && bytes_view(p.1) == s.skip(8 + dsize))
            }),
    {
        let mut input_buf = input_buf;
        let input_buf_size = bytes_len(&input_buf);
        if let Err(e) = LogArrayError::validate_input_buf_size(input_buf_size) {
            return Err(e);
        }
        let cw = read_head_control_word(&input_buf);
        let (len, width) = match read_control_word_trailing(cw.as_slice(), input_buf_size) {
            Ok(lw) => lw,
            Err(e) => {
                return Err(e);
            },
        };
        proof {
            crate::control::lemma_cw_len_bound(bytes_view(input_buf).take(8));
        }
        let num_bytes = logarray_length_from_len_width(len, width);
        let ghost s = bytes_view(input_buf);
        let ghost dsize = data_size(len as int, width as int);
        bytes_advance(&mut input_buf, 8);
        let rest = bytes_split_off(&mut input_buf, num_bytes);
        proof {
            assert(bytes_view(input_buf) =~= s.subrange(8, 8 + dsize));
            assert(bytes_view(rest) =~= s.skip(8 + dsize));
        }
        Ok((LogArray { first: 0, len, width, input_buf }, rest))
    }

    /// Returns the number of elements.
    pub fn len(&self) -> (r: usize)
        requires
            self.spec_len() <= usize::MAX,
        ensures
            r == self.spec_len(),
    {
        self.len as usize
    }

    /// Returns `true` if there are no elements.
    pub fn is_empty(&self) -> (r: bool)
        ensures
            r == (self.spec_len() == 0),
    {
        self.len == 0
    }

    /// Returns the bit width.
    pub fn width(&self) -> (r: u8)
        ensures
            r == self.spec_width(),
    {
        self.width
    }

    /// Reads the data buffer and returns the element at `index`.
    pub fn entry(&self, index: usize) -> (r: u64)
        requires
            self.wf(),
            index < self.spec_len(),
        ensures
            r == self@[index as int],
            fits_width(r, self.spec_width() as int),
    {
        proof {
            lemma_elem_of_fits(
                self.spec_buf(),
                self.first as int,
                self.width as int,
                index as int,
            );
        }
        if self.width == 0 {
            return 0;
        }
        proof {
            vstd::arithmetic::mul::lemma_mul_upper_bound(
                self.width as int,
                64,
                (self.first + index) as int,
                MAX_LOGARRAY_LEN as int,
            );
        }
        let bit_index: u64 = (self.width as u64) * (self.first + index as u64);
        proof {
            lemma_bit_index_split(bit_index);
            lemma_elem_in_bounds(
                (self.first + self.len) as int,
                self.first as int,
                self.width as int,
                index as int,
                self.spec_buf().len() as int,
            );
        }
        let byte_index: usize = ((bit_index >> 6u64) << 3u64) as usize;
        let first_word: u64 = read_word(&self.input_buf, byte_index);
        let leading_zeros: u8 = 64 - self.width;
        let offset: u8 = (bit_index & 63u64) as u8;
        if offset + self.width <= 64 {
            return first_word << (offset as u64) >> (leading_zeros as u64);
        }
        let second_word: u64 = read_word(&self.input_buf, byte_index + 8);
        let first_width: u8 = 64 - offset;
        let second_width: u8 = self.width - first_width;
        let first_part: u64 = first_word << (offset as u64) >> (offset as u64) << (second_width
            as u64);
        let second_part: u64 = second_word >> ((64 - second_width) as u64);
        first_part | second_part
    }

    /// An iterator over the elements, sharing the buffer.
    pub fn iter(&self) -> (r: LogArrayIterator)
        requires
            self.wf(),
            self.spec_len() <= usize::MAX,
        ensures
            r.wf(),
            r.remaining() == self@,
    {
        LogArrayIterator { logarray: self.clone(), pos: 0, end: self.len() }
    }

    /// Returns a logical slice of `len` elements starting at `offset`,
    /// sharing the same buffer.
    pub fn slice(&self, offset: usize, len: usize) -> (r: LogArray)
        requires
            self.wf(),
            offset + len <= self.spec_len(),
        ensures
            r.wf(),
            r.spec_len() == len,
            r.spec_width() == self.spec_width(),
            r@ == self@.subrange(offset as int, offset + len),
    {
        let r = LogArray {
            first: self.first + offset as u64,
            len: len as u64,
            width: self.width,
            input_buf: bytes_clone(&self.input_buf),
        };
        proof {
            lemma_data_size_monotonic(
                (r.first + r.len) as int,
                (self.first + self.len) as int,
                self.width as int,
            );
            assert forall|j: int| 0 <= j < len implies r@[j] == self@[offset + j] by {
                assert((r.first as int) + j == (self.first as int) + ((offset as int) + j));
            }
            assert(r@ =~= self@.subrange(offset as int, offset + len));
        }
        r
    }

    /// The checked form of `slice`: `None` when the requested range does not
    /// lie within the array.
    pub fn try_slice(&self, offset: usize, len: usize) -> (r: Option<LogArray>)
        requires
            self.wf(),
        ensures
            offset + len <= self.spec_len() ==> (r matches Some(a) && a.wf() && a.spec_len() == len
                && a.spec_width() == self.spec_width() && a@ == self@.subrange(
                offset as int,
                offset + len,
            )),
            offset + len > self.spec_len() ==> r is None,
    {
        if offset as u64 > self.len || len as u64 > self.len - offset as u64 {
            None
        } else {
            Some(self.slice(offset, len))
        }
    }
}

impl Clone for LogArray {
    /// A second view of the same elements over the same shared buffer.
    fn clone(&self) -> (r: Self)
        ensures
            r.spec_first() == self.spec_first(),
            r.spec_len() == self.spec_len(),
            r.spec_width() == self.spec_width(),
            r.spec_buf() == self.spec_buf(),
            r@ == self@,
            self.wf() ==> r.wf(),
    {
        LogArray {
            first: self.first,
            len: self.len,
            width: self.width,
            input_buf: bytes_clone(&self.input_buf),
        }
    }
}

/// A cursor over the elements of a `LogArray`.
pub struct LogArrayIterator {
    logarray: LogArray,
    pos: usize,
    end: usize,
}

impl LogArrayIterator {
    /// The iterator walks a well-formed array and its bounds are in range.
    pub closed spec fn wf(self) -> bool {
        &&& self.logarray.wf()
        &&& self.pos <= self.end
        &&& self.end == self.logarray.spec_len()
    }

    /// The elements not yet produced.
    pub closed spec fn remaining(self) -> Seq<u64> {
        self.logarray@.skip(self.pos as int)
    }

    /// Produces the next element, or `None` at the end.
    pub fn next(&mut self) -> (r: Option<u64>)
        requires
            old(self).wf(),
        ensures
            final(self).wf(),
            old(self).remaining().len() == 0 ==> r is None && final(self).remaining()
                == old(self).remaining(),
            old(self).remaining().len() > 0 ==> (r matches Some(v) && v == old(self).remaining()[0]
                && final(self).remaining() == old(self).remaining().skip(1)),
    {
        if self.pos == self.end {
            None
        } else {
            let result = self.logarray.entry(self.pos);
            self.pos = self.pos + 1;
            proof {
                assert(final(self).remaining() =~= old(self).remaining().skip(1));
            }
            Some(result)
        }
    }
}

impl Clone for LogArrayIterator {
    /// An independent cursor at the same position over the same elements.
    fn clone(&self) -> (r: Self)
        ensures
            self.wf() ==> r.wf(),
            r.remaining() == self.remaining(),
    {
        LogArrayIterator { logarray: self.logarray.clone(), pos: self.pos, end: self.end }
    }
}

/// Fewer total bits never need more data words.
proof fn lemma_data_size_monotonic(a: int, b: int, w: int)
    requires
        0 <= a <= b,
        0 <= w,
    ensures
        data_size(a, w) <= data_size(b, w),
{
    vstd::arithmetic::mul::lemma_mul_inequality(a, b, w);
    vstd::arithmetic::div_mod::lemma_div_is_ordered(a * w + 63, b * w + 63, 64);
}

/// Reads the big-endian 64-bit word at the word-aligned byte position
/// `byte_index` of the buffer.
fn read_word(b: &Bytes, byte_index: usize) -> (w: u64)
    requires
        byte_index % 8 == 0,
        byte_index + 8 <= bytes_view(*b).len(),
    ensures
        w == word_at(bytes_view(*b), byte_index as int / 8),
{
    let b0 = bytes_byte_at(b, byte_index);
    let b1 = bytes_byte_at(b, byte_index + 1);
    let b2 = bytes_byte_at(b, byte_index + 2);
    let b3 = bytes_byte_at(b, byte_index + 3);
    let b4 = bytes_byte_at(b, byte_index + 4);
    let b5 = bytes_byte_at(b, byte_index + 5);
    let b6 = bytes_byte_at(b, byte_index + 6);
    let b7 = bytes_byte_at(b, byte_index + 7);
    proof {
        vstd::arithmetic::div_mod::lemma_fundamental_div_mod(byte_index as int, 8);
    }
    ((b0 as u64) << 56u64) | ((b1 as u64) << 48u64) | ((b2 as u64) << 40u64)
        | ((b3 as u64) << 32u64) | ((b4 as u64) << 24u64) | ((b5 as u64) << 16u64)
        | ((b6 as u64) << 8u64) | (b7 as u64)
}

/// Copies the final 8 bytes of the buffer: the trailer control word.
fn read_tail_control_word(b: &Bytes) -> (r: Vec<u8>)
    requires
        bytes_view(*b).len() >= 8,
    ensures
        r@ == bytes_view(*b).skip(bytes_view(*b).len() - 8),
{
    let size = bytes_len(b);
    let mut r: Vec<u8> = Vec::new();
    let mut i: usize = 0;
    while i < 8
        invariant
            bytes_view(*b).len() >= 8,
            size == bytes_view(*b).len(),
            i <= 8,
            r@ =~= bytes_view(*b).subrange(size - 8, size - 8 + i),
        decreases 8 - i,
    {
        r.push(bytes_byte_at(b, size - 8 + i));
        i = i + 1;
    }
    proof {
        assert(r@ =~= bytes_view(*b).skip(bytes_view(*b).len() - 8));
    }
    r
}

/// Copies the first 8 bytes of the buffer: the head control word.
fn read_head_control_word(b: &Bytes) -> (r: Vec<u8>)
    requires
        bytes_view(*b).len() >= 8,
    ensures
        r@ == bytes_view(*b).take(8),
{
    let mut r: Vec<u8> = Vec::new();
    let mut i: usize = 0;
    while i < 8
        invariant
            bytes_view(*b).len() >= 8,
            i <= 8,
            r@ =~= bytes_view(*b).subrange(0, i as int),
        decreases 8 - i,
    {
        r.push(bytes_byte_at(b, i));
        i = i + 1;
    }
    proof {
        assert(r@ =~= bytes_view(*b).take(8));
    }
    r
}

} // verus!
