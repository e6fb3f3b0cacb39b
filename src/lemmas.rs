//! Facts about the encoding model that the laws of the library rest on.
use vstd::prelude::*;
use crate::encoding::{
    bytes_of_wide, four_byte_offset, is_four_byte_head, starts_with_split_pair, starts_with_unit,
    wf_units, is_bare_high, four_bytes, front_units, high_of_offset, is_high_surrogate,
    is_low_surrogate, low_of_offset, pair_code_point, two_byte_unit, unit_bytes, unit_len,
    wide_of_bytes,
};
use crate::tbs::{be24, tbs_code_unit};
use vstd::utf8::{
    codepoint_width_2, codepoint_width_3, codepoint_width_4, length_of_first_scalar,
    pop_first_scalar, valid_first_scalar, valid_utf8,
};

verus! {

proof fn lemma_two_byte_unit(c: u16)
    by (bit_vector)
    requires
        0x80 <= c <= 0x7ff,
    ensures
        0xc2 <= (((c >> 6) | 0xc0) as u8) <= 0xdf,
        0x80 <= (((c & 0x3f) | 0x80) as u8) <= 0xbf,
        two_byte_unit(((c >> 6) | 0xc0) as u8, ((c & 0x3f) | 0x80) as u8) == c,
{
}

proof fn lemma_three_byte_unit(c: u16)
    by (bit_vector)
    requires
        0x800 <= c,
    ensures
        0xe0 <= (((c >> 12) | 0xe0) as u8) <= 0xef,
        0x80 <= ((((c >> 6) & 0x3f) | 0x80) as u8) <= 0xbf,
        0x80 <= (((c & 0x3f) | 0x80) as u8) <= 0xbf,
        (((c >> 12) | 0xe0) as u8) == 0xe0 ==> ((((c >> 6) & 0x3f) | 0x80) as u8) >= 0xa0,
        (((c >> 12) | 0xe0) as u8) == 0xed && 0xa0 <= ((((c >> 6) & 0x3f) | 0x80) as u8) <= 0xaf
            ==> 0xd800 <= c <= 0xdbff,
        (((c >> 12) | 0xe0) as u8) == 0xed && 0xb0 <= ((((c >> 6) & 0x3f) | 0x80) as u8) <= 0xbf
            ==> 0xdc00 <= c <= 0xdfff,
        tbs_code_unit(
            be24(
                ((c >> 12) | 0xe0) as u8,
                (((c >> 6) & 0x3f) | 0x80) as u8,
                ((c & 0x3f) | 0x80) as u8,
            ),
        ) == c,
{
}

proof fn lemma_four_byte_pair(hi: u16, lo: u16)
    by (bit_vector)
    requires
        0xd800 <= hi <= 0xdbff,
        0xdc00 <= lo <= 0xdfff,
    ensures
        ((pair_code_point(hi, lo) >> 18) | 0xf0) as u8 >= 0xf0,
        is_four_byte_head(
            ((pair_code_point(hi, lo) >> 18) | 0xf0) as u8,
            (((pair_code_point(hi, lo) >> 12) & 0x3f) | 0x80) as u8,
        ),
        0x80 <= ((((pair_code_point(hi, lo) >> 6) & 0x3f) | 0x80) as u8) <= 0xbf,
        0x80 <= (((pair_code_point(hi, lo) & 0x3f) | 0x80) as u8) <= 0xbf,
        high_of_offset(
            four_byte_offset(
                ((pair_code_point(hi, lo) >> 18) | 0xf0) as u8,
                (((pair_code_point(hi, lo) >> 12) & 0x3f) | 0x80) as u8,
                (((pair_code_point(hi, lo) >> 6) & 0x3f) | 0x80) as u8,
                ((pair_code_point(hi, lo) & 0x3f) | 0x80) as u8,
            ),
        ) == hi,
        low_of_offset(
            four_byte_offset(
                ((pair_code_point(hi, lo) >> 18) | 0xf0) as u8,
                (((pair_code_point(hi, lo) >> 12) & 0x3f) | 0x80) as u8,
                (((pair_code_point(hi, lo) >> 6) & 0x3f) | 0x80) as u8,
                ((pair_code_point(hi, lo) & 0x3f) | 0x80) as u8,
            ),
        ) == lo,
{
}

/// Decoding reads a leading sequence of `k` bytes, then the rest.
pub proof fn lemma_decode_front(x: Seq<u8>, rest: Seq<u8>)
    requires
        x.len() >= 1,
        unit_len(x + rest) == x.len(),
    ensures
        wide_of_bytes(x + rest) == front_units(x + rest) + wide_of_bytes(rest),
{
    let b = x + rest;
    assert(b.subrange(x.len() as int, b.len() as int) =~= rest);
}

/// Decoding the bytes of one code unit gives it back.
pub proof fn lemma_decode_unit_bytes(c: u16, rest: Seq<u8>)
    ensures
        wide_of_bytes(unit_bytes(c) + rest) == seq![c] + wide_of_bytes(rest),
{
    let x = unit_bytes(c);
    let b = x + rest;
    if c <= 0x7f {
        assert(b[0] == c as u8);
    } else if c <= 0x7ff {
        lemma_two_byte_unit(c);
        assert(b[0] == x[0] && b[1] == x[1]);
    } else {
        lemma_three_byte_unit(c);
        assert(b[0] == x[0] && b[1] == x[1] && b[2] == x[2]);
    }
    lemma_decode_front(x, rest);
    assert(front_units(b) =~= seq![c]);
}

/// Decoding the 4-byte sequence of a surrogate pair gives the pair back.
pub proof fn lemma_decode_pair_bytes(hi: u16, lo: u16, rest: Seq<u8>)
    requires
        is_high_surrogate(hi),
        is_low_surrogate(lo),
    ensures
        wide_of_bytes(four_bytes(pair_code_point(hi, lo)) + rest) == seq![hi, lo] + wide_of_bytes(
            rest,
        ),
{
    let x = four_bytes(pair_code_point(hi, lo));
    let b = x + rest;
    lemma_four_byte_pair(hi, lo);
    assert(b[0] == x[0] && b[1] == x[1] && b[2] == x[2] && b[3] == x[3]);
    lemma_decode_front(x, rest);
    assert(front_units(b) =~= seq![hi, lo]);
}

/// Decoding the encoding of any code-unit sequence gives it back.
pub proof fn lemma_round_trip(w: Seq<u16>)
    ensures
        wide_of_bytes(bytes_of_wide(w)) == w,
    decreases w.len(),
{
    if w.len() == 0 {
    } else if w.len() >= 2 && is_high_surrogate(w[0]) && is_low_surrogate(w[1]) {
        let tail = w.subrange(2, w.len() as int);
        lemma_round_trip(tail);
        lemma_decode_pair_bytes(w[0], w[1], bytes_of_wide(tail));
        assert(seq![w[0], w[1]] + tail =~= w);
    } else {
        let tail = w.subrange(1, w.len() as int);
        lemma_round_trip(tail);
        lemma_decode_unit_bytes(w[0], bytes_of_wide(tail));
        assert(seq![w[0]] + tail =~= w);
    }
}

/// The encoding of any code-unit sequence is well-formed WTF-8, and it
/// begins with a 3-byte low surrogate only where the sequence does.
pub proof fn lemma_bytes_of_wide_wf(w: Seq<u16>)
    ensures
        wf_units(bytes_of_wide(w)),
        bytes_of_wide(w).len() >= 2 && bytes_of_wide(w)[0] == 0xed && 0xb0 <= bytes_of_wide(w)[1]
            <= 0xbf ==> is_low_surrogate(w[0]),
    decreases w.len(),
{
    let b = bytes_of_wide(w);
    if w.len() == 0 {
    } else if w.len() >= 2 && is_high_surrogate(w[0]) && is_low_surrogate(w[1]) {
        let tail = w.subrange(2, w.len() as int);
        let x = four_bytes(pair_code_point(w[0], w[1]));
        let rest = bytes_of_wide(tail);
        lemma_bytes_of_wide_wf(tail);
        lemma_four_byte_pair(w[0], w[1]);
        assert(b == x + rest);
        assert(b[0] == x[0] && b[1] == x[1] && b[2] == x[2] && b[3] == x[3]);
        assert(b.subrange(4, b.len() as int) =~= rest);
    } else {
        let tail = w.subrange(1, w.len() as int);
        let x = unit_bytes(w[0]);
        let rest = bytes_of_wide(tail);
        lemma_bytes_of_wide_wf(tail);
        assert(b == x + rest);
        let c = w[0];
        if c <= 0x7f {
            assert(b[0] == x[0]);
        } else if c <= 0x7ff {
            lemma_two_byte_unit(c);
            assert(b[0] == x[0] && b[1] == x[1]);
        } else {
            lemma_three_byte_unit(c);
            assert(b[0] == x[0] && b[1] == x[1] && b[2] == x[2]);
            if b.len() >= 6 {
                assert(b[3] == rest[0] && b[4] == rest[1]);
            }
        }
        assert(b.subrange(x.len() as int, b.len() as int) =~= rest);
    }
}

proof fn lemma_width_2_not_overlong(b0: u8, b1: u8)
    by (bit_vector)
    requires
        0xc0 <= b0 <= 0xdf,
        0x80 <= b1 <= 0xbf,
        codepoint_width_2(b0, b1) >= 0x80,
    ensures
        b0 >= 0xc2,
{
}

proof fn lemma_width_3_not_overlong(b0: u8, b1: u8, b2: u8)
    by (bit_vector)
    requires
        0xe0 <= b0 <= 0xef,
        0x80 <= b1 <= 0xbf,
        0x80 <= b2 <= 0xbf,
        codepoint_width_3(b0, b1, b2) >= 0x800,
        !(0xd800 <= codepoint_width_3(b0, b1, b2) <= 0xdfff),
    ensures
        b0 == 0xe0 ==> b1 >= 0xa0,
        b0 == 0xed ==> b1 < 0xa0,
{
}

proof fn lemma_width_4_in_range(b0: u8, b1: u8, b2: u8, b3: u8)
    by (bit_vector)
    requires
        0xf0 <= b0 <= 0xf7,
        0x80 <= b1 <= 0xbf,
        0x80 <= b2 <= 0xbf,
        0x80 <= b3 <= 0xbf,
        0x10000 <= codepoint_width_4(b0, b1, b2, b3) <= 0x10ffff,
    ensures
        b0 <= 0xf4,
        b0 == 0xf0 ==> b1 >= 0x90,
        b0 == 0xf4 ==> b1 <= 0x8f,
{
}

/// Valid UTF-8 is well-formed WTF-8.
pub proof fn lemma_valid_utf8_wf(b: Seq<u8>)
    requires
        valid_utf8(b),
    ensures
        wf_units(b),
    decreases b.len(),
{
    if b.len() > 0 {
        assert(valid_first_scalar(b));
        if 0xc0 <= b[0] <= 0xdf {
            lemma_width_2_not_overlong(b[0], b[1]);
        } else if 0xe0 <= b[0] <= 0xef {
            lemma_width_3_not_overlong(b[0], b[1], b[2]);
        } else if b[0] >= 0xf0 {
            lemma_width_4_in_range(b[0], b[1], b[2], b[3]);
        }
        assert(unit_len(b) == length_of_first_scalar(b));
        lemma_valid_utf8_wf(pop_first_scalar(b));
    }
}

} // verus!
