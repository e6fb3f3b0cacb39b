//! Facts about the canonical copy: it is stable, well formed, and equal to
//! the string it copies.
use vstd::prelude::*;
use crate::cmp::{canonical_triple, front_tag, back_tag, peels_low, peels_high};
use crate::conv::canonical_bytes;
use crate::encoding::{
    is_bare_high, is_cont, is_four_byte_head, starts_with_bare_low, starts_with_split_pair,
    starts_with_unit, unit_len, well_formed, wf_units,
};
use crate::tbs::{be24, tbs_tag};

verus! {

proof fn lemma_low_tag_rewrite(b0: u8, b1: u8, b2: u8, t: u16)
    by (bit_vector)
    requires
        0x80 <= b0 <= 0xbf,
        0x80 <= b1 <= 0xbf,
        0x80 <= b2 <= 0xbf,
        t == tbs_tag(be24(b0, b1, b2)),
    ensures
        0xb000 <= t <= 0xbfff,
        0xb0 <= ((t >> 8) as u8) <= 0xbf,
        0x80 <= ((t & 0xff) as u8) <= 0xbf,
        tbs_tag(be24(0xed, (t >> 8) as u8, (t & 0xff) as u8)) == t,
{
}

proof fn lemma_high_tag_rewrite(b0: u8, b1: u8, b2: u8, t: u16)
    by (bit_vector)
    requires
        0xf0 <= b0 <= 0xf4,
        0x80 <= b1 <= 0xbf,
        b0 == 0xf0 ==> b1 >= 0x90,
        b0 == 0xf4 ==> b1 <= 0x8f,
        0x80 <= b2 <= 0xbf,
        t == tbs_tag(be24(b0, b1, b2)),
    ensures
        0xa000 <= t <= 0xafff,
        0xa0 <= ((t >> 8) as u8) <= 0xaf,
        0x80 <= ((t & 0xff) as u8) <= 0xbf,
        tbs_tag(be24(0xed, (t >> 8) as u8, (t & 0xff) as u8)) == t,
{
}

proof fn lemma_short_lead_no_tag(b0: u8, b1: u8, b2: u8)
    by (bit_vector)
    requires
        b0 <= 0x7f || (0xc2 <= b0 <= 0xdf),
    ensures
        tbs_tag(be24(b0, b1, b2)) == 0,
{
}

/// A well-formed WTF-8 sequence with a 4-byte lead three bytes before its
/// end ends with a bare high-surrogate group.
pub proof fn lemma_ends_with_bare_high(x: Seq<u8>)
    requires
        wf_units(x),
        x.len() >= 3,
        x[x.len() - 3] >= 0xf0,
    ensures
        is_bare_high(x.subrange(x.len() - 3, x.len() as int)),
        is_bare_high(x) || unit_len(x) <= x.len() - 3,
    decreases x.len(),
{
    let n = x.len() as int;
    if is_bare_high(x) {
        assert(x.subrange(n - 3, n) =~= x);
    } else {
        let k = unit_len(x) as int;
        let rest = x.subrange(k, n);
        if n - 3 >= k {
            assert(rest[rest.len() - 3] == x[n - 3]);
            lemma_ends_with_bare_high(rest);
            assert(rest.subrange(rest.len() - 3, rest.len() as int) =~= x.subrange(n - 3, n));
        } else {
            assert(is_cont(x[n - 3]) || n - 3 == 0);
        }
    }
}

/// Rewriting a trailing bare high-surrogate group in its 3-byte form keeps
/// WTF-8 well formed.
proof fn lemma_rewrite_back_wf(x: Seq<u8>, h1: u8, h2: u8)
    requires
        wf_units(x),
        x.len() >= 3,
        x[x.len() - 3] >= 0xf0,
        0xa0 <= h1 <= 0xaf,
        is_cont(h2),
    ensures
        wf_units(
            x.update(x.len() - 3, 0xed).update(x.len() - 2, h1).update(x.len() - 1, h2),
        ),
    decreases x.len(),
{
    let n = x.len() as int;
    let y = x.update(n - 3, 0xed).update(n - 2, h1).update(n - 1, h2);
    lemma_ends_with_bare_high(x);
    if is_bare_high(x) {
        assert(y.subrange(3, 3) =~= Seq::<u8>::empty());
        assert(wf_units(y.subrange(3, 3)));
        assert(starts_with_unit(y));
        assert(unit_len(y) == 3);
    } else {
        let k = unit_len(x) as int;
        let rest = x.subrange(k, n);
        assert(rest[rest.len() - 3] == x[n - 3]);
        lemma_rewrite_back_wf(rest, h1, h2);
        let rn = rest.len() as int;
        assert(y.subrange(k, n) =~= rest.update(rn - 3, 0xed).update(rn - 2, h1).update(
            rn - 1,
            h2,
        ));
        assert(forall|i: int| 0 <= i < k ==> y[i] == x[i]);
        assert(starts_with_unit(y));
        assert(unit_len(y) == k);
        assert(!starts_with_split_pair(y));
    }
}

/// The canonical copy of any byte string is its own canonical copy.
pub proof fn lemma_canonical_bytes_stable(b: Seq<u8>)
    ensures
        canonical_bytes(canonical_bytes(b)) == canonical_bytes(b),
{
    let c = canonical_bytes(b);
    let n = b.len() as int;
    if n >= 3 {
        assert(!is_cont(c[0]));
        assert(c[n - 3] < 0xf0);
    }
}

/// In a well-formed string, a leading continuation byte begins a bare
/// low-surrogate group.
proof fn lemma_leading_cont(b: Seq<u8>)
    requires
        well_formed(b),
        b.len() >= 1,
    ensures
        is_cont(b[0]) ==> starts_with_bare_low(b) && wf_units(b.subrange(3, b.len() as int)),
        !is_cont(b[0]) ==> wf_units(b),
{
}

/// The canonical copy of a well-formed string is well formed and equal to
/// it under canonicalization.
pub proof fn lemma_canonical_bytes_equivalent(b: Seq<u8>)
    requires
        well_formed(b),
    ensures
        well_formed(canonical_bytes(b)),
        canonical_triple(canonical_bytes(b)) == canonical_triple(b),
{
    let n = b.len() as int;
    let c = canonical_bytes(b);
    if n < 3 {
        return;
    }
    lemma_leading_cont(b);
    if is_cont(b[0]) {
        let t = tbs_tag(be24(b[0], b[1], b[2]));
        lemma_low_tag_rewrite(b[0], b[1], b[2], t);
        let front = b.update(0, 0xed).update(1, (t >> 8) as u8).update(2, (t & 0xff) as u8);
        let body = b.subrange(3, n);
        assert(front[0] == 0xed && front[1] == (t >> 8) as u8 && front[2] == (t & 0xff) as u8);
        if front[n - 3] >= 0xf0 {
            assert(n - 3 >= 3);
            assert(front[n - 3] == b[n - 3] && front[n - 2] == b[n - 2] && front[n - 1] == b[n
                - 1]);
            assert(body[body.len() - 3] == b[n - 3]);
            lemma_ends_with_bare_high(body);
            let bh = body.subrange(body.len() - 3, body.len() as int);
            assert(b[n - 3] == bh[0] && b[n - 2] == bh[1] && b[n - 1] == bh[2]);
            let t2 = tbs_tag(be24(b[n - 3], b[n - 2], b[n - 1]));
            lemma_high_tag_rewrite(b[n - 3], b[n - 2], b[n - 1], t2);
            lemma_rewrite_back_wf(body, (t2 >> 8) as u8, (t2 & 0xff) as u8);
            assert(c.subrange(3, n) =~= body.update(body.len() - 3, 0xed).update(
                body.len() - 2,
                (t2 >> 8) as u8,
            ).update(body.len() - 1, (t2 & 0xff) as u8));
            assert(c[n - 3] == 0xed && c[n - 2] == (t2 >> 8) as u8 && c[n - 1] == (t2 & 0xff) as u8);
            assert(back_tag(c) == back_tag(b));
        } else {
            assert(c == front);
            assert(c.subrange(3, n) =~= body);
            if n >= 6 {
                assert(c[n - 3] == b[n - 3] && c[n - 2] == b[n - 2] && c[n - 1] == b[n - 1]);
                assert(back_tag(c) == back_tag(b));
            }
        }
        assert(c[0] == 0xed && c[1] == (t >> 8) as u8 && c[2] == (t & 0xff) as u8);
        assert(starts_with_unit(c));
        assert(unit_len(c) == 3);
        assert(!starts_with_split_pair(c));
        assert(wf_units(c));
        assert(front_tag(c) == front_tag(b));
    } else {
        if b[n - 3] >= 0xf0 {
            lemma_ends_with_bare_high(b);
            let bh = b.subrange(n - 3, n);
            assert(b[n - 3] == bh[0] && b[n - 2] == bh[1] && b[n - 1] == bh[2]);
            let t2 = tbs_tag(be24(b[n - 3], b[n - 2], b[n - 1]));
            lemma_high_tag_rewrite(b[n - 3], b[n - 2], b[n - 1], t2);
            lemma_rewrite_back_wf(b, (t2 >> 8) as u8, (t2 & 0xff) as u8);
            assert(c =~= b.update(n - 3, 0xed).update(n - 2, (t2 >> 8) as u8).update(
                n - 1,
                (t2 & 0xff) as u8,
            ));
            assert(back_tag(c) == back_tag(b));
            if n == 3 {
                assert(front_tag(c) == back_tag(c));
                assert(front_tag(b) == back_tag(b));
            } else if n < 6 {
                assert(unit_len(b) <= 2);
                lemma_short_lead_no_tag(b[0], b[1], b[2]);
                assert(c[0] == b[0]);
                lemma_short_lead_no_tag(c[0], c[1], c[2]);
            } else {
                assert(c[0] == b[0] && c[1] == b[1] && c[2] == b[2]);
            }
        } else {
            assert(c == b);
        }
    }
    assert(peels_low(c) == peels_low(b));
    assert(peels_high(c) == peels_high(b));
    let t1 = canonical_triple(b);
    let t2 = canonical_triple(c);
    assert(t1.1 =~= t2.1);
}

} // verus!
