//! The mathematical model of OMG-WTF-8: which byte sequences are well formed,
//! the 16-bit code units they stand for, and the bytes that a sequence of
//! code units is encoded to.
use vstd::prelude::*;
use crate::tbs::{be24, tbs_code_unit};

verus! {

pub open spec fn is_cont(b: u8) -> bool {
    0x80 <= b <= 0xbf
}

pub open spec fn is_high_surrogate(c: u16) -> bool {
    0xd800 <= c <= 0xdbff
}

pub open spec fn is_low_surrogate(c: u16) -> bool {
    0xdc00 <= c <= 0xdfff
}

/// `b0 b1` begin the UTF-8 encoding of a supplementary code point.
pub open spec fn is_four_byte_head(b0: u8, b1: u8) -> bool {
    &&& 0xf0 <= b0 <= 0xf4
    &&& is_cont(b1)
    &&& b0 == 0xf0 ==> b1 >= 0x90
    &&& b0 == 0xf4 ==> b1 <= 0x8f
}

/// `b` starts with one complete WTF-8 sequence: UTF-8 that also admits the
/// 3-byte encodings of surrogates.
pub open spec fn starts_with_unit(b: Seq<u8>) -> bool {
    &&& b.len() >= 1
    &&& {
        ||| b[0] <= 0x7f
        ||| 0xc2 <= b[0] <= 0xdf && b.len() >= 2 && is_cont(b[1])
        ||| 0xe0 <= b[0] <= 0xef && b.len() >= 3 && is_cont(b[1]) && is_cont(b[2]) && (b[0]
            == 0xe0 ==> b[1] >= 0xa0)
        ||| b.len() >= 4 && is_four_byte_head(b[0], b[1]) && is_cont(b[2]) && is_cont(b[3])
    }
}

/// The number of bytes that the decoder reads for the code unit(s) at the
/// front of `b`.
pub open spec fn unit_len(b: Seq<u8>) -> nat {
    if b[0] <= 0x7f {
        1
    } else if 0xc0 <= b[0] <= 0xdf {
        2
    } else if b[0] >= 0xf0 && b.len() >= 4 {
        4
    } else {
        3
    }
}

/// A bare high-surrogate group: the first three bytes of a 4-byte sequence.
pub open spec fn is_bare_high(b: Seq<u8>) -> bool {
    b.len() == 3 && is_four_byte_head(b[0], b[1]) && is_cont(b[2])
}

/// A bare low-surrogate group: the last three bytes of a 4-byte sequence.
pub open spec fn starts_with_bare_low(b: Seq<u8>) -> bool {
    b.len() >= 3 && is_cont(b[0]) && is_cont(b[1]) && is_cont(b[2])
}

/// A 3-byte high surrogate directly followed by a 3-byte low surrogate: WTF-8
/// writes such a pair as one 4-byte sequence instead.
pub open spec fn starts_with_split_pair(b: Seq<u8>) -> bool {
    &&& b.len() >= 6
    &&& b[0] == 0xed && 0xa0 <= b[1] <= 0xaf
    &&& b[3] == 0xed && 0xb0 <= b[4] <= 0xbf
}

/// Well-formed WTF-8 that may end with a bare high-surrogate group.
pub open spec fn wf_units(b: Seq<u8>) -> bool
    decreases b.len(),
{
    if b.len() == 0 {
        true
    } else if is_bare_high(b) {
        true
    } else {
        &&& starts_with_unit(b)
        &&& !starts_with_split_pair(b)
        &&& wf_units(b.subrange(unit_len(b) as int, b.len() as int))
    }
}

/// A well-formed OMG-WTF-8 byte sequence: WTF-8, optionally preceded by a
/// bare low-surrogate group and optionally followed by a bare high one.
pub open spec fn well_formed(b: Seq<u8>) -> bool {
    ||| wf_units(b)
    ||| starts_with_bare_low(b) && wf_units(b.subrange(3, b.len() as int))
}

/// The bytes are enough for every read that the decoder makes.
pub open spec fn decodable(b: Seq<u8>) -> bool
    decreases b.len(),
{
    b.len() > 0 ==> unit_len(b) <= b.len() && decodable(b.subrange(unit_len(b) as int, b.len() as int))
}

/// The code point of a 4-byte sequence, less 0x10000.
pub open spec fn four_byte_offset(b0: u8, b1: u8, b2: u8, b3: u8) -> u32 {
    ((((b0 as u32) & 7) << 18) | (((b1 as u32) & 0x3f) << 12) | (((b2 as u32) & 0x3f) << 6) | ((
    b3 as u32) & 0x3f)).wrapping_sub(0x10000)
}

pub open spec fn two_byte_unit(b0: u8, b1: u8) -> u16 {
    ((((b0 as u16) & 0x1f) << 6) | ((b1 as u16) & 0x3f)) as u16
}

pub open spec fn high_of_offset(d: u32) -> u16 {
    (((d >> 10) & 0x3ff) | 0xd800) as u16
}

pub open spec fn low_of_offset(d: u32) -> u16 {
    ((d & 0x3ff) | 0xdc00) as u16
}

/// The code units of the sequence at the front of `b`.
pub open spec fn front_units(b: Seq<u8>) -> Seq<u16> {
    if b[0] <= 0x7f {
        seq![b[0] as u16]
    } else if 0xc0 <= b[0] <= 0xdf {
        seq![two_byte_unit(b[0], b[1])]
    } else if b[0] >= 0xf0 && b.len() >= 4 {
        let d = four_byte_offset(b[0], b[1], b[2], b[3]);
        seq![high_of_offset(d), low_of_offset(d)]
    } else {
        seq![tbs_code_unit(be24(b[0], b[1], b[2]))]
    }
}

/// The logical content of an OMG-WTF-8 byte sequence: its 16-bit code units.
pub open spec fn wide_of_bytes(b: Seq<u8>) -> Seq<u16>
    decreases b.len(),
{
    if b.len() == 0 || unit_len(b) > b.len() {
        seq![]
    } else {
        front_units(b) + wide_of_bytes(b.subrange(unit_len(b) as int, b.len() as int))
    }
}

/// The UTF-8 style encoding of one code unit (surrogates get 3 bytes).
pub open spec fn unit_bytes(c: u16) -> Seq<u8> {
    if c <= 0x7f {
        seq![c as u8]
    } else if c <= 0x7ff {
        seq![((c >> 6) | 0xc0) as u8, ((c & 0x3f) | 0x80) as u8]
    } else {
        seq![((c >> 12) | 0xe0) as u8, (((c >> 6) & 0x3f) | 0x80) as u8, ((c & 0x3f) | 0x80) as u8]
    }
}

/// The supplementary code point of a surrogate pair.
pub open spec fn pair_code_point(hi: u16, lo: u16) -> u32 {
    (((((hi as u32) & 0x3ff) << 10) | ((lo as u32) & 0x3ff)) + 0x10000) as u32
}

/// The 4-byte UTF-8 encoding of a supplementary code point.
pub open spec fn four_bytes(c: u32) -> Seq<u8> {
    seq![
        ((c >> 18) | 0xf0) as u8,
        (((c >> 12) & 0x3f) | 0x80) as u8,
        (((c >> 6) & 0x3f) | 0x80) as u8,
        ((c & 0x3f) | 0x80) as u8,
    ]
}

/// The OMG-WTF-8 encoding of a sequence of code units: each surrogate pair
/// becomes one 4-byte sequence, every other unit is encoded alone.
pub open spec fn bytes_of_wide(w: Seq<u16>) -> Seq<u8>
    decreases w.len(),
{
    if w.len() == 0 {
        seq![]
    } else if w.len() >= 2 && is_high_surrogate(w[0]) && is_low_surrogate(w[1]) {
        four_bytes(pair_code_point(w[0], w[1])) + bytes_of_wide(w.subrange(2, w.len() as int))
    } else {
        unit_bytes(w[0]) + bytes_of_wide(w.subrange(1, w.len() as int))
    }
}

} // verus!
