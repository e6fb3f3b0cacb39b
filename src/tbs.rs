//! Three consecutive bytes read as one big-endian 24-bit integer.
use vstd::prelude::*;

verus! {

/// The canonical surrogate tag of a 24-bit window, or 0 when it cannot
/// denote a surrogate.
pub open spec fn tbs_tag(v: u32) -> u16 {
    if 0xeda000 <= v <= 0xedffff {
        (v & 0xffff) as u16
    } else if 0x800000 <= v <= 0xbfffff {
        ((v & 0x0fff) | 0xb000) as u16
    } else if v >= 0xf00000 {
        ((((v >> 4) & 0x0303) | ((v >> 6) & 0x1c3c)).wrapping_sub(0x100) | 0xa080) as u16
    } else {
        0
    }
}

/// The WTF-16 code unit that a 24-bit window stands for.
pub open spec fn tbs_code_unit(v: u32) -> u16 {
    if v >= 0xf00000 {
        ((((v >> 4) & 3) | ((v >> 6) & 0xfc) | ((v >> 8) & 0x700)) + 0xd7c0) as u16
    } else if 0x800000 <= v <= 0xbfffff {
        ((v & 0x3f) | ((v >> 2) & 0x3c0) | 0xdc00) as u16
    } else {
        ((v & 0x3f) | ((v >> 2) & 0xfc0) | ((v >> 4) & 0xf000)) as u16
    }
}

/// The big-endian value of three bytes.
pub open spec fn be24(b0: u8, b1: u8, b2: u8) -> u32 {
    ((b0 as u32) << 16) | ((b1 as u32) << 8) | (b2 as u32)
}

/// A 3-byte window of an OMG-WTF-8 string, held as a big-endian integer.
pub struct ThreeByteSeq(pub u32);

impl ThreeByteSeq {
    /// Reads the first three bytes of `input`.
    pub fn new(input: &[u8]) -> (r: Self)
        requires
            input@.len() >= 3,
        ensures
            r.0 == be24(input@[0], input@[1], input@[2]),
    {
        ThreeByteSeq(((input[0] as u32) << 16) | ((input[1] as u32) << 8) | (input[2] as u32))
    }

    /// The canonical surrogate tag: `0xa000..=0xafff` for a high surrogate,
    /// `0xb000..=0xbfff` for a low surrogate, 0 when the window cannot be one.
    pub fn canonicalize(self) -> (r: u16)
        ensures
            r == tbs_tag(self.0),
    {
        let v = self.0;
        if 0xeda000 <= v && v <= 0xedffff {
            (v & 0xffff) as u16
        } else if 0x800000 <= v && v <= 0xbfffff {
            ((v & 0x0fff) | 0xb000) as u16
        } else if v >= 0xf00000 {
            ((((v >> 4) & 0x0303) | ((v >> 6) & 0x1c3c)).wrapping_sub(0x100) | 0xa080) as u16
        } else {
            0
        }
    }

    /// The WTF-16 code unit of the window: the high surrogate of a 4-byte
    /// head, the low surrogate of a 4-byte tail, else a 3-byte code point.
    pub fn as_code_unit(self) -> (r: u16)
        ensures
            r == tbs_code_unit(self.0),
    {
        let v = self.0;
        if v >= 0xf00000 {
            assert((((v >> 4) & 3) | ((v >> 6) & 0xfc) | ((v >> 8) & 0x700)) <= 0x7ff)
                by (bit_vector);
            ((((v >> 4) & 3) | ((v >> 6) & 0xfc) | ((v >> 8) & 0x700)) + 0xd7c0) as u16
        } else if 0x800000 <= v && v <= 0xbfffff {
            ((v & 0x3f) | ((v >> 2) & 0x3c0) | 0xdc00) as u16
        } else {
            ((v & 0x3f) | ((v >> 2) & 0xfc0) | ((v >> 4) & 0xf000)) as u16
        }
    }
}

} // verus!
