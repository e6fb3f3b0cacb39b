//! The OMG-WTF-8 string type.
use vstd::prelude::*;
use crate::encoding::well_formed;

verus! {

/// An OMG-WTF-8 string: an immutable, owned byte buffer.
#[derive(Debug)]
pub struct OmgWtf8 {
    bytes: Vec<u8>,
}

impl View for OmgWtf8 {
    type V = Seq<u8>;

    closed spec fn view(&self) -> Seq<u8> {
        self.bytes@
    }
}

impl OmgWtf8 {
    /// The bytes hold the OMG-WTF-8 invariant.
    pub open spec fn is_well_formed(&self) -> bool {
        well_formed(self@)
    }

    /// Wraps a buffer of bytes.
    pub(crate) fn from_vec(bytes: Vec<u8>) -> (r: OmgWtf8)
        ensures
            r@ == bytes@,
    {
        OmgWtf8 { bytes }
    }

    /// Copies raw bytes into a string without checking them: the caller
    /// vouches that they are well formed.
    pub fn from_bytes_unchecked(s: &[u8]) -> (r: OmgWtf8)
        requires
            well_formed(s@),
        ensures
            r@ == s@,
            r.is_well_formed(),
    {
        OmgWtf8 { bytes: vstd::slice::slice_to_vec(s) }
    }

    /// The raw bytes.
    pub fn as_bytes(&self) -> (r: &[u8])
        ensures
            r@ == self@,
    {
        self.bytes.as_slice()
    }

    /// The length in bytes.
    pub fn len(&self) -> (r: usize)
        ensures
            r == self@.len(),
    {
        self.bytes.len()
    }

    /// Whether the string holds no byte.
    pub fn is_empty(&self) -> (r: bool)
        ensures
            r == (self@.len() == 0),
    {
        self.bytes.len() == 0
    }
}

} // verus!
