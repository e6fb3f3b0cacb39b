//! Canonical equality agrees with equality of code units: the canonical
//! triple of a well-formed string is a function of its code units.
use vstd::prelude::*;
use crate::encoding::{
    bytes_of_wide, four_byte_offset, four_bytes, front_units, high_of_offset, is_cont,
    is_four_byte_head, is_high_surrogate, is_low_surrogate, low_of_offset, pair_code_point,
    starts_with_split_pair, starts_with_unit, two_byte_unit, unit_bytes, unit_len, wide_of_bytes,
    wf_units, is_bare_high,
};
use crate::tbs::{be24, tbs_code_unit, tbs_tag};
use crate::encoding::{starts_with_bare_low, well_formed};
use crate::cmp::{back_tag, canonical_triple, front_tag, is_high_tag, is_low_tag, peels_high, peels_low};
use crate::canon::lemma_ends_with_bare_high;
use crate::cuts::{lemma_four_byte_lead, lemma_lead_is_reached, lemma_walk_split};
use crate::lemmas::lemma_decode_front;

verus! {

/// The tag of a low surrogate.
pub open spec fn low_tag_of(u: u16) -> u16 {
    (0xb080 | (((u >> 6) & 0xf) << 8) | (u & 0x3f)) as u16
}

/// The tag of a high surrogate.
pub open spec fn high_tag_of(u: u16) -> u16 {
    (0xa080 | (((u >> 6) & 0xf) << 8) | (u & 0x3f)) as u16
}

proof fn lemma_two_byte_shape(b0: u8, b1: u8)
    by (bit_vector)
    requires
        0xc2 <= b0 <= 0xdf,
        0x80 <= b1 <= 0xbf,
    ensures
        0x80 <= two_byte_unit(b0, b1) <= 0x7ff,
        ((two_byte_unit(b0, b1) >> 6) | 0xc0) as u8 == b0,
        ((two_byte_unit(b0, b1) & 0x3f) | 0x80) as u8 == b1,
{
}

proof fn lemma_three_byte_shape(b0: u8, b1: u8, b2: u8)
    by (bit_vector)
    requires
        0xe0 <= b0 <= 0xef,
        0x80 <= b1 <= 0xbf,
        0x80 <= b2 <= 0xbf,
        b0 == 0xe0 ==> b1 >= 0xa0,
    ensures
        0x800 <= tbs_code_unit(be24(b0, b1, b2)),
        ((tbs_code_unit(be24(b0, b1, b2)) >> 12) | 0xe0) as u8 == b0,
        (((tbs_code_unit(be24(b0, b1, b2)) >> 6) & 0x3f) | 0x80) as u8 == b1,
        ((tbs_code_unit(be24(b0, b1, b2)) & 0x3f) | 0x80) as u8 == b2,
        (0xdc00 <= tbs_code_unit(be24(b0, b1, b2)) <= 0xdfff) == (b0 == 0xed && b1 >= 0xb0),
        (0xd800 <= tbs_code_unit(be24(b0, b1, b2)) <= 0xdbff) == (b0 == 0xed && 0xa0 <= b1
            <= 0xaf),
{
}

proof fn lemma_four_byte_shape(b0: u8, b1: u8, b2: u8, b3: u8)
    by (bit_vector)
    requires
        0xf0 <= b0 <= 0xf4,
        0x80 <= b1 <= 0xbf,
        b0 == 0xf0 ==> b1 >= 0x90,
        b0 == 0xf4 ==> b1 <= 0x8f,
        0x80 <= b2 <= 0xbf,
        0x80 <= b3 <= 0xbf,
    ensures
        0xd800 <= high_of_offset(four_byte_offset(b0, b1, b2, b3)) <= 0xdbff,
        0xdc00 <= low_of_offset(four_byte_offset(b0, b1, b2, b3)) <= 0xdfff,
        ((pair_code_point(
            high_of_offset(four_byte_offset(b0, b1, b2, b3)),
            low_of_offset(four_byte_offset(b0, b1, b2, b3)),
        ) >> 18) | 0xf0) as u8 == b0,
        (((pair_code_point(
            high_of_offset(four_byte_offset(b0, b1, b2, b3)),
            low_of_offset(four_byte_offset(b0, b1, b2, b3)),
        ) >> 12) & 0x3f) | 0x80) as u8 == b1,
        (((pair_code_point(
            high_of_offset(four_byte_offset(b0, b1, b2, b3)),
            low_of_offset(four_byte_offset(b0, b1, b2, b3)),
        ) >> 6) & 0x3f) | 0x80) as u8 == b2,
        ((pair_code_point(
            high_of_offset(four_byte_offset(b0, b1, b2, b3)),
            low_of_offset(four_byte_offset(b0, b1, b2, b3)),
        ) & 0x3f) | 0x80) as u8 == b3,
{
}

/// What the tag of a 3-byte window says, for the windows that occur in a
/// well-formed string.
proof fn lemma_tag_kind(b0: u8, b1: u8, b2: u8)
    by (bit_vector)
    requires
        b0 <= 0xef || (0xf0 <= b0 <= 0xf4 && 0x80 <= b1 <= 0xbf && (b0 == 0xf0 ==> b1 >= 0x90) && (
        b0 == 0xf4 ==> b1 <= 0x8f)),
    ensures
        (0xb000 <= tbs_tag(be24(b0, b1, b2)) <= 0xbfff) == ((0x80 <= b0 <= 0xbf) || (b0 == 0xed
            && 0xb0 <= b1 <= 0xbf)),
        (0xa000 <= tbs_tag(be24(b0, b1, b2)) <= 0xafff) == ((b0 == 0xed && 0xa0 <= b1 <= 0xaf)
            || b0 >= 0xf0),
{
}

/// The tag of a low or high surrogate group is the tag of its code unit.
proof fn lemma_tag_of_unit(b0: u8, b1: u8, b2: u8)
    by (bit_vector)
    requires
        0x80 <= b2 <= 0xbf,
        (0x80 <= b0 <= 0xbf && 0x80 <= b1 <= 0xbf) || (b0 == 0xed && 0xa0 <= b1 <= 0xbf) || (0xf0
            <= b0 <= 0xf4 && 0x80 <= b1 <= 0xbf && (b0 == 0xf0 ==> b1 >= 0x90) && (b0 == 0xf4
            ==> b1 <= 0x8f)),
    ensures
        (0xb000 <= tbs_tag(be24(b0, b1, b2)) <= 0xbfff) ==> (0xdc00 <= tbs_code_unit(
            be24(b0, b1, b2),
        ) <= 0xdfff && tbs_tag(be24(b0, b1, b2)) == low_tag_of(tbs_code_unit(be24(b0, b1, b2)))),
        (0xa000 <= tbs_tag(be24(b0, b1, b2)) <= 0xafff) ==> (0xd800 <= tbs_code_unit(
            be24(b0, b1, b2),
        ) <= 0xdbff && tbs_tag(be24(b0, b1, b2)) == high_tag_of(tbs_code_unit(be24(b0, b1, b2)))),
{
}

/// Surrogates are told apart by their tags.
proof fn lemma_tag_injective(u1: u16, u2: u16)
    by (bit_vector)
    ensures
        low_tag_of(u1) != 0,
        high_tag_of(u1) != 0,
        (0xdc00 <= u1 <= 0xdfff && 0xdc00 <= u2 <= 0xdfff && low_tag_of(u1) == low_tag_of(u2))
            ==> u1 == u2,
        (0xd800 <= u1 <= 0xdbff && 0xd800 <= u2 <= 0xdbff && high_tag_of(u1) == high_tag_of(u2))
            ==> u1 == u2,
{
}

/// Well-formed WTF-8 with no bare group: every byte belongs to a complete
/// sequence.
pub open spec fn plain(m: Seq<u8>) -> bool
    decreases m.len(),
{
    m.len() == 0 || (starts_with_unit(m) && !starts_with_split_pair(m) && plain(
        m.subrange(unit_len(m) as int, m.len() as int),
    ))
}

/// Well-formed WTF-8 that does not end with a bare high-surrogate group is
/// plain.
pub proof fn lemma_wf_plain(y: Seq<u8>)
    requires
        wf_units(y),
        y.len() < 3 || y[y.len() - 3] < 0xf0,
    ensures
        plain(y),
    decreases y.len(),
{
    if y.len() > 0 {
        let rest = y.subrange(unit_len(y) as int, y.len() as int);
        if rest.len() >= 3 {
            assert(rest[rest.len() - 3] == y[y.len() - 3]);
        }
        lemma_wf_plain(rest);
    }
}

/// The first code unit of plain WTF-8 is a low surrogate exactly when it
/// begins with a 3-byte low surrogate.
pub proof fn lemma_plain_first(m: Seq<u8>)
    requires
        plain(m),
        m.len() > 0,
    ensures
        wide_of_bytes(m).len() > 0,
        wide_of_bytes(m)[0] == front_units(m)[0],
        is_low_surrogate(wide_of_bytes(m)[0]) == (m[0] == 0xed && 0xb0 <= m[1] <= 0xbf),
{
    let k = unit_len(m) as int;
    let rest = m.subrange(k, m.len() as int);
    assert(wide_of_bytes(m) == front_units(m) + wide_of_bytes(rest));
    if 0xc2 <= m[0] <= 0xdf {
        lemma_two_byte_shape(m[0], m[1]);
    } else if 0xe0 <= m[0] <= 0xef {
        lemma_three_byte_shape(m[0], m[1], m[2]);
    } else if m[0] >= 0xf0 {
        lemma_four_byte_shape(m[0], m[1], m[2], m[3]);
    }
}

/// The last code unit of plain WTF-8 is a high surrogate exactly when it
/// ends with a 3-byte high surrogate.
pub proof fn lemma_plain_last(m: Seq<u8>)
    requires
        plain(m),
        m.len() > 0,
    ensures
        wide_of_bytes(m).len() > 0,
        is_high_surrogate(wide_of_bytes(m).last()) == (m.len() >= 3 && m[m.len() - 3] == 0xed
            && 0xa0 <= m[m.len() - 2] <= 0xaf),
    decreases m.len(),
{
    let n = m.len() as int;
    let k = unit_len(m) as int;
    let rest = m.subrange(k, n);
    let f = front_units(m);
    assert(wide_of_bytes(m) == f + wide_of_bytes(rest));
    if rest.len() > 0 {
        lemma_plain_last(rest);
        assert(wide_of_bytes(m).last() == wide_of_bytes(rest).last());
        if rest.len() >= 3 {
            assert(rest[rest.len() - 3] == m[n - 3] && rest[rest.len() - 2] == m[n - 2]);
        } else if n >= 3 {
            assert(n - 3 < k);
            assert(n - 3 == 0 ==> k != 3);
        }
    } else {
        assert(wide_of_bytes(rest) =~= Seq::<u16>::empty());
        assert(wide_of_bytes(m) =~= f);
        if 0xc2 <= m[0] <= 0xdf {
            lemma_two_byte_shape(m[0], m[1]);
        } else if 0xe0 <= m[0] <= 0xef {
            lemma_three_byte_shape(m[0], m[1], m[2]);
        } else if m[0] >= 0xf0 {
            lemma_four_byte_shape(m[0], m[1], m[2], m[3]);
        }
    }
}

/// Encoding the code units of plain WTF-8 gives back its bytes.
pub proof fn lemma_plain_reencode(m: Seq<u8>)
    requires
        plain(m),
    ensures
        bytes_of_wide(wide_of_bytes(m)) == m,
    decreases m.len(),
{
    let n = m.len() as int;
    if n == 0 {
        assert(wide_of_bytes(m) =~= Seq::<u16>::empty());
    } else {
        let k = unit_len(m) as int;
        let rest = m.subrange(k, n);
        lemma_plain_reencode(rest);
        let w = wide_of_bytes(m);
        let wr = wide_of_bytes(rest);
        let f = front_units(m);
        assert(w == f + wr);
        assert(m =~= m.subrange(0, k) + rest);
        if m[0] >= 0xf0 {
            lemma_four_byte_shape(m[0], m[1], m[2], m[3]);
            assert(w.subrange(2, w.len() as int) =~= wr);
            assert(four_bytes(pair_code_point(w[0], w[1])) =~= m.subrange(0, 4));
        } else {
            let c = f[0];
            if 0xc2 <= m[0] <= 0xdf {
                lemma_two_byte_shape(m[0], m[1]);
            } else if 0xe0 <= m[0] <= 0xef {
                lemma_three_byte_shape(m[0], m[1], m[2]);
            }
            if rest.len() > 0 && is_high_surrogate(c) {
                lemma_plain_first(rest);
                assert(k == 3);
                assert(rest[0] == m[3]);
                if rest.len() >= 2 {
                    assert(rest[1] == m[4]);
                }
            }
            assert(w.subrange(1, w.len() as int) =~= wr);
            assert(unit_bytes(c) =~= m.subrange(0, k));
        }
    }
}

/// The code units at the front of a string that begins with a surrogate
/// group, and the tag of that group.
proof fn lemma_peel_low(b: Seq<u8>)
    requires
        well_formed(b),
    ensures
        ({
            let x = if peels_low(b) { b.subrange(3, b.len() as int) } else { b };
            let u = tbs_code_unit(be24(b[0], b[1], b[2]));
            &&& wf_units(x)
            &&& peels_low(b) ==> b.len() >= 3 && wide_of_bytes(b) == seq![u] + wide_of_bytes(x)
                && is_low_surrogate(u) && front_tag(b) == low_tag_of(u)
            &&& !peels_low(b) ==> !(x.len() >= 2 && x[0] == 0xed && 0xb0 <= x[1] <= 0xbf)
        }),
{
    let n = b.len() as int;
    if n >= 3 {
        if b[0] >= 0xf0 {
            if !is_cont(b[0]) && wf_units(b) && !is_bare_high(b) {
                assert(is_four_byte_head(b[0], b[1]));
            }
        }
        lemma_tag_kind(b[0], b[1], b[2]);
        if peels_low(b) {
            let l = b.subrange(0, 3);
            let x = b.subrange(3, n);
            assert(b =~= l + x);
            assert((l + x)[0] == b[0] && (l + x)[1] == b[1] && (l + x)[2] == b[2]);
            lemma_decode_front(l, x);
            if !is_cont(b[0]) {
                assert(wf_units(b));
                assert(starts_with_unit(b));
            }
            lemma_tag_of_unit(b[0], b[1], b[2]);
            assert(front_units(l + x) =~= seq![tbs_code_unit(be24(b[0], b[1], b[2]))]);
        }
    }
}

/// The code units at the end of well-formed WTF-8 that ends with a high
/// surrogate group, and the tag of that group; else the WTF-8 is plain and
/// its last code unit is not a high surrogate.
proof fn lemma_peel_high(x: Seq<u8>)
    requires
        wf_units(x),
    ensures
        ({
            let m = x.len() as int;
            let hx = m >= 3 && is_high_tag(back_tag(x));
            let u = tbs_code_unit(be24(x[m - 3], x[m - 2], x[m - 1]));
            &&& hx ==> plain(x.subrange(0, m - 3)) && wide_of_bytes(x) == wide_of_bytes(
                x.subrange(0, m - 3),
            ) + seq![u] && is_high_surrogate(u) && back_tag(x) == high_tag_of(u)
            &&& !hx ==> plain(x) && (m > 0 ==> !is_high_surrogate(wide_of_bytes(x).last()))
        }),
{
    let m = x.len() as int;
    if m >= 3 {
        if x[m - 3] >= 0xf0 {
            lemma_ends_with_bare_high(x);
            let t = x.subrange(m - 3, m);
            assert(t[0] == x[m - 3] && t[1] == x[m - 2] && t[2] == x[m - 1]);
        }
        lemma_tag_kind(x[m - 3], x[m - 2], x[m - 1]);
    }
    if m >= 3 && is_high_tag(back_tag(x)) {
        if m - 3 > 0 {
            lemma_lead_is_reached(x, m - 3);
        }
        lemma_walk_split(x, m - 3);
        let t = x.subrange(m - 3, m);
        assert(t[0] == x[m - 3] && t[1] == x[m - 2] && t[2] == x[m - 1]);
        assert(is_cont(x[m - 1])) by {
            if !is_bare_high(t) {
                assert(starts_with_unit(t));
            }
        }
        lemma_tag_of_unit(x[m - 3], x[m - 2], x[m - 1]);
        assert(t =~= t + Seq::<u8>::empty());
        lemma_decode_front(t, Seq::<u8>::empty());
        assert(wide_of_bytes(Seq::<u8>::empty()) =~= Seq::<u16>::empty());
        assert(front_units(t) =~= seq![tbs_code_unit(be24(x[m - 3], x[m - 2], x[m - 1]))]);
        let mid = x.subrange(0, m - 3);
        if m - 3 >= 3 && mid[m - 6] >= 0xf0 {
            assert(x[m - 6] == mid[m - 6]);
            lemma_four_byte_lead(x, m - 6);
        }
        lemma_wf_plain(mid);
    } else {
        lemma_wf_plain(x);
        if m > 0 {
            lemma_plain_last(x);
        }
    }
}

/// The canonical triple read off a sequence of code units: a leading low
/// surrogate, a trailing high surrogate, and the WTF-8 of the rest.
pub open spec fn triple_of_wide(w: Seq<u16>) -> (u16, Seq<u8>, u16) {
    let lo_p = w.len() > 0 && is_low_surrogate(w[0]);
    let w1 = if lo_p { w.drop_first() } else { w };
    let hi_p = w1.len() > 0 && is_high_surrogate(w1.last());
    let w2 = if hi_p { w1.drop_last() } else { w1 };
    (
        if lo_p { low_tag_of(w[0]) } else { 0 },
        bytes_of_wide(w2),
        if hi_p { high_tag_of(w1.last()) } else { 0 },
    )
}

/// The canonical triple of a well-formed string depends on its code units
/// alone.
pub proof fn lemma_triple_of_wide(b: Seq<u8>)
    requires
        well_formed(b),
    ensures
        canonical_triple(b) == triple_of_wide(wide_of_bytes(b)),
{
    let n = b.len() as int;
    lemma_peel_low(b);
    let x = if peels_low(b) { b.subrange(3, n) } else { b };
    lemma_peel_high(x);
    let m = x.len() as int;
    let hx = m >= 3 && is_high_tag(back_tag(x));
    if m >= 3 {
        assert(x[m - 3] == b[n - 3] && x[m - 2] == b[n - 2] && x[m - 1] == b[n - 1]);
    }
    assert(peels_high(b) == hx);
    let mid = if hx { x.subrange(0, m - 3) } else { x };
    assert(plain(mid));
    lemma_plain_reencode(mid);
    let w = wide_of_bytes(b);
    let wx = wide_of_bytes(x);
    let lo_p = w.len() > 0 && is_low_surrogate(w[0]);
    if peels_low(b) {
        assert(lo_p);
        assert(w.drop_first() =~= wx);
    } else {
        assert(w == wx);
        if mid.len() > 0 {
            lemma_plain_first(mid);
            if hx {
                assert(wx[0] == wide_of_bytes(mid)[0]);
                assert(mid[0] == b[0]);
                if mid.len() >= 2 {
                    assert(mid[1] == b[1]);
                }
            }
        } else if hx {
            assert(wide_of_bytes(mid) =~= Seq::<u16>::empty());
            assert(wx[0] == tbs_code_unit(be24(x[m - 3], x[m - 2], x[m - 1])));
        } else {
            assert(wide_of_bytes(mid) =~= Seq::<u16>::empty());
        }
        assert(!lo_p);
    }
    let w1 = if lo_p { w.drop_first() } else { w };
    assert(w1 == wx);
    if hx {
        assert(wx.last() == tbs_code_unit(be24(x[m - 3], x[m - 2], x[m - 1])));
        assert(wx.drop_last() =~= wide_of_bytes(mid));
    } else if m == 0 {
        assert(wx =~= Seq::<u16>::empty());
    }
    let t = canonical_triple(b);
    assert(t.1 =~= mid);
}

/// Two well-formed strings are equal exactly when their code units are.
pub proof fn lemma_eq_iff_same_units(a: Seq<u8>, b: Seq<u8>)
    requires
        well_formed(a),
        well_formed(b),
    ensures
        (canonical_triple(a) == canonical_triple(b)) == (wide_of_bytes(a) == wide_of_bytes(b)),
{
    lemma_triple_of_wide(a);
    lemma_triple_of_wide(b);
    let wa = wide_of_bytes(a);
    let wb = wide_of_bytes(b);
    if triple_of_wide(wa) == triple_of_wide(wb) {
        let la = wa.len() > 0 && is_low_surrogate(wa[0]);
        let lb = wb.len() > 0 && is_low_surrogate(wb[0]);
        if la {
            lemma_tag_injective(wa[0], wa[0]);
        }
        if lb {
            lemma_tag_injective(wb[0], wb[0]);
        }
        assert(la == lb);
        if la {
            lemma_tag_injective(wa[0], wb[0]);
        }
        let a1 = if la { wa.drop_first() } else { wa };
        let b1 = if lb { wb.drop_first() } else { wb };
        let ha = a1.len() > 0 && is_high_surrogate(a1.last());
        let hb = b1.len() > 0 && is_high_surrogate(b1.last());
        if ha {
            lemma_tag_injective(a1.last(), a1.last());
        }
        if hb {
            lemma_tag_injective(b1.last(), b1.last());
        }
        assert(ha == hb);
        if ha {
            lemma_tag_injective(a1.last(), b1.last());
        }
        let a2 = if ha { a1.drop_last() } else { a1 };
        let b2 = if hb { b1.drop_last() } else { b1 };
        crate::lemmas::lemma_round_trip(a2);
        crate::lemmas::lemma_round_trip(b2);
        assert(a2 == b2);
        assert(la == lb);
        assert(ha == hb);
        if ha {
            assert(a1 =~= a2.push(a1.last()));
            assert(b1 =~= b2.push(b1.last()));
        }
        assert(a1 == b1);
        if la {
            assert(wa =~= seq![wa[0]] + a1);
            assert(wb =~= seq![wb[0]] + b1);
        }
        assert(wa == wb);
    }
}

} // verus!
