//! Classification of byte indices and slicing at 16-bit boundaries.
use vstd::prelude::*;
use crate::encoding::{is_cont, wf_units};
use crate::string::OmgWtf8;

verus! {

/// The kind of a byte index in an OMG-WTF-8 string.
#[derive(PartialEq, Eq, Structural, Debug, Clone, Copy)]
pub enum IndexType {
    /// The boundary of a WTF-8 sequence.
    CharBoundary,
    /// Byte 1 of a 4-byte sequence.
    FourByteSeq1,
    /// Byte 2 of a 4-byte sequence: a cut between its two surrogates.
    FourByteSeq2,
    /// Byte 3 of a 4-byte sequence.
    FourByteSeq3,
    /// Inside a 2- or 3-byte sequence.
    Interior,
    /// Past the end.
    OutOfBounds,
}

/// The kind of index `i` in `b`.
pub open spec fn classify(b: Seq<u8>, i: int) -> IndexType {
    let n = b.len() as int;
    if i == 0 || i == n {
        IndexType::CharBoundary
    } else if i < 0 || i > n {
        IndexType::OutOfBounds
    } else if !is_cont(b[i]) {
        IndexType::CharBoundary
    } else if i + 3 <= n && b[i - 1] >= 0xf0 {
        IndexType::FourByteSeq1
    } else if 2 <= i && i + 2 <= n && b[i - 2] >= 0xf0 {
        IndexType::FourByteSeq2
    } else if 3 <= i && b[i - 3] >= 0xf0 {
        IndexType::FourByteSeq3
    } else {
        IndexType::Interior
    }
}

/// A cut may be made at `i`: on a sequence boundary, or between the two
/// surrogates of a 4-byte sequence.
pub open spec fn is_cut(b: Seq<u8>, i: int) -> bool {
    classify(b, i) == IndexType::CharBoundary || classify(b, i) == IndexType::FourByteSeq2
}

/// Where a slice that starts at cut `i` begins: a cut inside a 4-byte
/// sequence keeps its last three bytes as a bare low-surrogate group.
pub open spec fn start_byte(b: Seq<u8>, i: int) -> int {
    if classify(b, i) == IndexType::FourByteSeq2 {
        i - 1
    } else {
        i
    }
}

/// Where a slice that ends at cut `j` stops: a cut inside a 4-byte sequence
/// keeps its first three bytes as a bare high-surrogate group.
pub open spec fn end_byte(b: Seq<u8>, j: int) -> int {
    if classify(b, j) == IndexType::FourByteSeq2 {
        j + 1
    } else {
        j
    }
}

impl OmgWtf8 {
    /// Classifies byte index `index` of this string.
    pub fn classify_index(&self, index: usize) -> (r: IndexType)
        ensures
            r == classify(self@, index as int),
    {
        let s = self.as_bytes();
        let len = s.len();
        if index == 0 || index == len {
            return IndexType::CharBoundary;
        }
        if index > len {
            return IndexType::OutOfBounds;
        }
        let b = s[index];
        if !(0x80 <= b && b <= 0xbf) {
            IndexType::CharBoundary
        } else if len >= 3 && index <= len - 3 && s[index - 1] >= 0xf0 {
            IndexType::FourByteSeq1
        } else if 2 <= index && index <= len - 2 && s[index - 2] >= 0xf0 {
            IndexType::FourByteSeq2
        } else if 3 <= index && s[index - 3] >= 0xf0 {
            IndexType::FourByteSeq3
        } else {
            IndexType::Interior
        }
    }

    /// Where a slice that ends at cut `end` stops.
    fn adjust_end(&self, end: usize) -> (e: usize)
        requires
            is_cut(self@, end as int),
        ensures
            e == end_byte(self@, end as int),
    {
        let len = self.len();
        if end < len && self.classify_index(end) == IndexType::FourByteSeq2 {
            end + 1
        } else {
            end
        }
    }

    fn copy_range(&self, start: usize, end: usize) -> (r: OmgWtf8)
        requires
            start <= end <= self@.len(),
        ensures
            r@ == self@.subrange(start as int, end as int),
    {
        OmgWtf8::from_vec(
            vstd::slice::slice_to_vec(vstd::slice::slice_subrange(self.as_bytes(), start, end)),
        )
    }

    /// The substring `start..end`; empty when `start == end`. Each end must be
    /// a cut; one between two surrogates keeps three bytes of the 4-byte
    /// sequence as a bare surrogate group.
    pub fn slice(&self, start: usize, end: usize) -> (r: OmgWtf8)
        requires
            start == end || (start < end && is_cut(self@, start as int) && is_cut(
                self@,
                end as int,
            )),
        ensures
            start == end ==> r@ == Seq::<u8>::empty(),
            start != end ==> r@ == self@.subrange(
                start_byte(self@, start as int),
                end_byte(self@, end as int),
            ),
            self.is_well_formed() ==> r.is_well_formed(),
    {
        proof {
            if self.is_well_formed() && start != end {
                crate::cuts::lemma_slice(self@, start as int, end as int);
            }
            assert(wf_units(Seq::<u8>::empty()));
        }
        if start == end {
            return OmgWtf8::from_vec(Vec::new());
        }
        let s = match self.classify_index(start) {
            IndexType::FourByteSeq2 => start - 1,
            _ => start,
        };
        let e = self.adjust_end(end);
        self.copy_range(s, e)
    }

    /// The substring from cut `start` to the end.
    pub fn slice_from(&self, start: usize) -> (r: OmgWtf8)
        requires
            is_cut(self@, start as int),
        ensures
            r@ == self@.subrange(start_byte(self@, start as int), self@.len() as int),
            self.is_well_formed() ==> r.is_well_formed(),
    {
        proof {
            let n = self@.len() as int;
            if self.is_well_formed() && start < n {
                crate::cuts::lemma_slice(self@, start as int, n);
            }
            assert(self@.subrange(n, n) =~= Seq::<u8>::empty());
            assert(wf_units(Seq::<u8>::empty()));
        }
        let s = match self.classify_index(start) {
            IndexType::FourByteSeq2 => start - 1,
            _ => start,
        };
        self.copy_range(s, self.len())
    }

    /// The substring from the start to cut `end`.
    pub fn slice_to(&self, end: usize) -> (r: OmgWtf8)
        requires
            is_cut(self@, end as int),
        ensures
            r@ == self@.subrange(0, end_byte(self@, end as int)),
            self.is_well_formed() ==> r.is_well_formed(),
    {
        proof {
            if self.is_well_formed() && end > 0 {
                crate::cuts::lemma_slice(self@, 0, end as int);
            }
            assert(self@.subrange(0, 0) =~= Seq::<u8>::empty());
            assert(wf_units(Seq::<u8>::empty()));
        }
        let e = self.adjust_end(end);
        self.copy_range(0, e)
    }
}

} // verus!
