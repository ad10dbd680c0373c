//! A log array whose elements are non-decreasing, supporting binary search
//! by value.

use vstd::prelude::*;
use bytes::Bytes;
use crate::array::{LogArray, LogArrayIterator};
use crate::bytebuf::bytes_view;
use crate::control::{expected_size, cw_len_of, cw_width_of};
use crate::error::LogArrayError;
use crate::model::{data_size, elems_of};

verus! {

broadcast use crate::array::lemma_view_len;

/// The elements never decrease.
pub open spec fn is_monotonic(s: Seq<u64>) -> bool {
    forall|i: int, j: int| 0 <= i < j < s.len() ==> s[i] <= s[j]
}

/// A log array asserted to be monotonic, with binary search by value.
///
/// `from_logarray` demands the order up front; `try_from_logarray` checks it
/// at run time; the parsers wrap without checking, as a release build of a
/// validating constructor would. The search contracts promise lower-bound
/// semantics whenever the elements really are monotonic.
pub struct MonotonicLogArray(LogArray);

impl View for MonotonicLogArray {
    type V = Seq<u64>;

    /// The sequence of element values the view exposes.
    closed spec fn view(&self) -> Seq<u64> {
        self.0@
    }
}

impl MonotonicLogArray {
    /// The unvalidated wrap, at the specification level.
    pub closed spec fn wrap_spec(l: LogArray) -> MonotonicLogArray {
        MonotonicLogArray(l)
    }

    /// The number of accessible elements.
    pub closed spec fn spec_len(self) -> u64 {
        self.0.spec_len()
    }

    /// The bit width of each element.
    pub closed spec fn spec_width(self) -> u8 {
        self.0.spec_width()
    }

    /// Well-formedness of the underlying array view.
    pub closed spec fn wf(self) -> bool {
        self.0.wf()
    }

    /// Wraps a log array without copying. The order is demanded up front,
    /// not checked at run time; a caller that cannot vouch for it uses the
    /// validating `try_from_logarray` instead.
    pub fn from_logarray(logarray: LogArray) -> (r: MonotonicLogArray)
        requires
            is_monotonic(logarray@),
        ensures
            is_monotonic(r@),
            r@ == logarray@,
            r.spec_len() == logarray.spec_len(),
            r.spec_width() == logarray.spec_width(),
            logarray.wf() ==> r.wf(),
    {
        MonotonicLogArray(logarray)
    }

    /// The validating constructor: wraps the array when its elements are
    /// non-decreasing and reports `None` otherwise.
    pub fn try_from_logarray(logarray: LogArray) -> (r: Option<MonotonicLogArray>)
        requires
            logarray.wf(),
            logarray.spec_len() <= usize::MAX,
        ensures
            is_monotonic(logarray@) ==> (r matches Some(m) && m@ == logarray@ && m.wf()
                && m.spec_len() == logarray.spec_len() && m.spec_width()
                == logarray.spec_width()),
            !is_monotonic(logarray@) ==> r is None,
    {
        let len = logarray.len();
        let mut i: usize = 1;
        while i < len
            invariant
                logarray.wf(),
                len == logarray.spec_len(),
                1 <= i,
                forall|p: int, q: int| 0 <= p < q < i ==> logarray@[p] <= logarray@[q],
            decreases len - i,
        {
            if logarray.entry(i - 1) > logarray.entry(i) {
                proof {
                    assert(!is_monotonic(logarray@));
                }
                return None;
            }
            proof {
                assert forall|p: int, q: int| 0 <= p < q < i + 1 implies logarray@[p]
                    <= logarray@[q] by {
                    lemma_sorted_prefix_extend(logarray@, i as int, p, q);
                }
            }
            i = i + 1;
        }
        proof {
            assert(is_monotonic(logarray@));
        }
        Some(MonotonicLogArray(logarray))
    }

    /// Construct a `MonotonicLogArray` by parsing a buffer in the trailer
    /// layout. The shape validation is the log array parse; the order is
    /// asserted, not checked.
    pub fn parse(bytes: Bytes) -> (r: Result<MonotonicLogArray, LogArrayError>)
        ensures
            ({
                let s = bytes_view(bytes);
                let cw = s.skip(s.len() - 8);
                let len = cw_len_of(cw);
                let width = cw_width_of(cw);
                &&& s.len() < 8 ==> (r matches Err(e) && e == LogArrayError::InputBufferTooSmall(
                    s.len() as usize,
                ))
                &&& s.len() >= 8 && width > 64 ==> (r matches Err(e) && e
                    == LogArrayError::WidthTooLarge(width))
                &&& s.len() >= 8 && width <= 64 && s.len() != expected_size(
                    len as int,
                    width as int,
                ) ==> (r matches Err(e) && e == LogArrayError::UnexpectedInputBufferSize(
                    s.len() as u64,
                    expected_size(len as int, width as int) as u64,
                    len,
                    width,
                ))
                &&& s.len() >= 8 && width <= 64 && s.len() == expected_size(
                    len as int,
                    width as int,
                ) ==> (r matches Ok(m) && m.wf() && m.spec_len() == len && m.spec_width() == width
                    && m@ == elems_of(s, 0, width as int, len as int))
            }),
    {
        match LogArray::parse(bytes) {
            Ok(logarray) => Ok(MonotonicLogArray(logarray)),
            Err(e) => Err(e),
        }
    }

    /// Construct a `MonotonicLogArray` by parsing a buffer in the
    /// header-first layout, handing back the bytes after the data words.
    pub fn parse_header_first(bytes: Bytes) -> (r: Result<
        (MonotonicLogArray, Bytes),
        LogArrayError,
    >)
        ensures
            ({
                let s = bytes_view(bytes);
                let cw = s.take(8);
                let len = cw_len_of(cw);
                let width = cw_width_of(cw);
                let dsize = data_size(len as int, width as int);
                &&& s.len() < 8 ==> (r matches Err(e) && e == LogArrayError::InputBufferTooSmall(
                    s.len() as usize,
                ))
                &&& s.len() >= 8 && width > 64 ==> (r matches Err(e) && e
                    == LogArrayError::WidthTooLarge(width))
                &&& s.len() >= 8 && width <= 64 && s.len() < expected_size(
                    len as int,
                    width as int,
                ) ==> (r matches Err(e) && e == LogArrayError::UnexpectedInputBufferSize(
                    s.len() as u64,
                    expected_size(len as int, width as int) as u64,
                    len,
                    width,
                ))
                &&& s.len() >= 8 && width <= 64 && s.len() >= expected_size(
                    len as int,
                    width as int,
                ) ==> (r matches Ok(p) && p.0.wf() && p.0.spec_len() == len && p.0.spec_width()
                    == width && p.0@ == elems_of(s.subrange(8, 8 + dsize), 0, width as int,
                    len as int) && bytes_view(p.1) == s.skip(8 + dsize))
            }),
    {
        match LogArray::parse_header_first(bytes) {
            Ok((logarray, remainder)) => Ok((MonotonicLogArray(logarray), remainder)),
            Err(e) => Err(e),
        }
    }

    /// Returns the number of elements.
    pub fn len(&self) -> (r: usize)
        requires
            self.spec_len() <= usize::MAX,
        ensures
            r == self.spec_len(),
    {
        self.0.len()
    }

    /// Returns `true` if there are no elements.
    pub fn is_empty(&self) -> (r: bool)
        ensures
            r == (self.spec_len() == 0),
    {
        self.0.is_empty()
    }

    /// Reads the element at `index`.
    pub fn entry(&self, index: usize) -> (r: u64)
        requires
            self.wf(),
            index < self.spec_len(),
        ensures
            r == self@[index as int],
    {
        self.0.entry(index)
    }

    /// An iterator over the elements, sharing the buffer.
    pub fn iter(&self) -> (r: LogArrayIterator)
        requires
            self.wf(),
            self.spec_len() <= usize::MAX,
        ensures
            r.wf(),
            r.remaining() == self@,
    {
        self.0.iter()
    }

    /// The index of `element`, or `None` when no element equals it. On a
    /// monotonic array the reported index is the first occurrence.
    pub fn index_of(&self, element: u64) -> (r: Option<usize>)
        requires
            self.wf(),
            self.spec_len() <= usize::MAX,
        ensures
            is_monotonic(self@) ==> match r {
                Some(i) => i < self@.len() && self@[i as int] == element && forall|j: int|
                    0 <= j < i ==> self@[j] != element,
                None => forall|j: int| 0 <= j < self@.len() ==> self@[j] != element,
            },
    {
        let index = self.nearest_index_of(element);
        if index >= self.len() || self.entry(index) != element {
            proof {
                if is_monotonic(self@) && (index as int) < self@.len() && self@[index as int]
                    != element {
                    assert forall|j: int| 0 <= j < self@.len() implies self@[j] != element by {
                        if j > index {
                            assert(self@[index as int] <= self@[j]);
                        }
                    }
                }
            }
            None
        } else {
            Some(index)
        }
    }

    /// The lower-bound position of `element` on a monotonic array: the
    /// index of the first element at least `element`, or the length when
    /// every element is below it. An empty array gives 0.
    pub fn nearest_index_of(&self, element: u64) -> (r: usize)
        requires
            self.wf(),
            self.spec_len() <= usize::MAX,
        ensures
            r <= self@.len(),
            is_monotonic(self@) ==> forall|j: int| 0 <= j < r ==> self@[j] < element,
            is_monotonic(self@) ==> (r < self@.len() ==> self@[r as int] >= element),
    {
        let mut lo: usize = 0;
        let mut hi: usize = self.len();
        while lo < hi
            invariant
                self.wf(),
                self.spec_len() <= usize::MAX,
                lo <= hi <= self@.len(),
                is_monotonic(self@) ==> forall|j: int| 0 <= j < lo ==> self@[j] < element,
                is_monotonic(self@) ==> forall|j: int|
                    hi <= j < self@.len() ==> self@[j] >= element,
            decreases hi - lo,
        {
            let mid = lo + (hi - lo) / 2;
            if self.entry(mid) < element {
                proof {
                    if is_monotonic(self@) {
                        assert forall|j: int| 0 <= j < mid + 1 implies self@[j] < element by {
                            if j < mid {
                                assert(self@[j] <= self@[mid as int]);
                            }
                        }
                    }
                }
                lo = mid + 1;
            } else {
                proof {
                    if is_monotonic(self@) {
                        assert forall|j: int| mid <= j < self@.len() implies self@[j]
                            >= element by {
                            if j > mid {
                                assert(self@[mid as int] <= self@[j]);
                            }
                        }
                    }
                }
                hi = mid;
            }
        }
        lo
    }

    /// Returns a logical slice of `len` elements starting at `offset`,
    /// sharing the same buffer. A slice of a monotonic array is monotonic.
    pub fn slice(&self, offset: usize, len: usize) -> (r: MonotonicLogArray)
        requires
            self.wf(),
            offset + len <= self.spec_len(),
        ensures
            r.wf(),
            r.spec_len() == len,
            r.spec_width() == self.spec_width(),
            r@ == self@.subrange(offset as int, offset + len),
            is_monotonic(self@) ==> is_monotonic(r@),
    {
        let r = MonotonicLogArray(self.0.slice(offset, len));
        proof {
            if is_monotonic(self@) {
                assert forall|i: int, j: int| 0 <= i < j < r@.len() implies r@[i] <= r@[j] by {
                    assert(self@[offset + i] <= self@[offset + j]);
                }
            }
        }
        r
    }
}

impl Clone for MonotonicLogArray {
    /// A second view of the same elements over the same shared buffer.
    fn clone(&self) -> (r: Self)
        ensures
            r@ == self@,
            r.spec_len() == self.spec_len(),
            r.spec_width() == self.spec_width(),
            self.wf() ==> r.wf(),
    {
        MonotonicLogArray(self.0.clone())
    }
}

impl From<LogArray> for MonotonicLogArray {
    /// The unvalidated wrap: the order is asserted, not checked.
    fn from(l: LogArray) -> (r: Self) {
        MonotonicLogArray(l)
    }
}

impl vstd::std_specs::convert::FromSpecImpl<LogArray> for MonotonicLogArray {
    open spec fn obeys_from_spec() -> bool {
        true
    }

    open spec fn from_spec(l: LogArray) -> Self {
        MonotonicLogArray::wrap_spec(l)
    }
}

/// Pairwise order up to `i` plus one new adjacent link extends the order up
/// to `i + 1`.
proof fn lemma_sorted_prefix_extend(s: Seq<u64>, i: int, p: int, q: int)
    requires
        0 < i < s.len(),
        forall|a: int, b: int| 0 <= a < b < i ==> s[a] <= s[b],
        s[i - 1] <= s[i],
        0 <= p < q < i + 1,
    ensures
        s[p] <= s[q],
{
    if q == i && p < i - 1 {
        assert(s[p] <= s[i - 1]);
    }
}

} // verus!
