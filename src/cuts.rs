//! Facts about cutting a string: where the decoder's sequences begin, and
//! what a slice between two cuts decodes to.
use vstd::prelude::*;
use crate::encoding::{
    four_byte_offset, front_units, high_of_offset, is_bare_high, is_cont, is_four_byte_head,
    low_of_offset, starts_with_split_pair, starts_with_unit, unit_len, wf_units, wide_of_bytes,
};
use crate::tbs::{be24, tbs_code_unit};
use crate::encoding::{starts_with_bare_low, well_formed};
use crate::lemmas::lemma_decode_front;
use crate::slice::{classify, end_byte, is_cut, start_byte, IndexType};

verus! {

/// `p` is a position that the decoder reaches when it walks `x` from the
/// front: the start of a sequence, or the end.
pub open spec fn walk(x: Seq<u8>, p: int) -> bool
    decreases x.len(),
{
    if p == 0 {
        true
    } else if x.len() == 0 {
        false
    } else {
        let k = unit_len(x) as int;
        k <= x.len() && p >= k && walk(x.subrange(k, x.len() as int), p - k)
    }
}

/// The decoder walks a well-formed sequence to its end.
pub proof fn lemma_walk_end(x: Seq<u8>)
    requires
        wf_units(x),
    ensures
        walk(x, x.len() as int),
    decreases x.len(),
{
    if x.len() > 0 {
        let k = unit_len(x) as int;
        if !is_bare_high(x) {
            lemma_walk_end(x.subrange(k, x.len() as int));
        } else {
            assert(walk(x.subrange(3, 3), 0));
        }
    }
}

/// At a position the decoder reaches, a well-formed sequence splits into
/// two well-formed sequences whose code units make up its own.
pub proof fn lemma_walk_split(x: Seq<u8>, p: int)
    requires
        wf_units(x),
        walk(x, p),
    ensures
        0 <= p <= x.len(),
        wf_units(x.subrange(0, p)),
        wf_units(x.subrange(p, x.len() as int)),
        wide_of_bytes(x) == wide_of_bytes(x.subrange(0, p)) + wide_of_bytes(
            x.subrange(p, x.len() as int),
        ),
    decreases x.len(),
{
    let n = x.len() as int;
    if p == 0 {
        assert(x.subrange(0, 0) =~= Seq::<u8>::empty());
        assert(x.subrange(0, n) =~= x);
        assert(wide_of_bytes(Seq::<u8>::empty()) =~= Seq::<u16>::empty());
        assert(wide_of_bytes(x) =~= Seq::<u16>::empty() + wide_of_bytes(x));
    } else {
        let k = unit_len(x) as int;
        let rest = x.subrange(k, n);
        lemma_walk_split(rest, p - k);
        let pre = x.subrange(0, p);
        assert(x.subrange(p, n) =~= rest.subrange(p - k, rest.len() as int));
        if is_bare_high(x) {
            assert(rest.len() == 0);
            assert(p == n);
            assert(pre =~= x);
            assert(x.subrange(p, n) =~= Seq::<u8>::empty());
            assert(wide_of_bytes(x.subrange(p, n)) =~= Seq::<u16>::empty());
            assert(wide_of_bytes(x) + Seq::<u16>::empty() =~= wide_of_bytes(x));
        } else {
            assert(forall|i: int| 0 <= i < p ==> pre[i] == x[i]);
            assert(unit_len(pre) == k);
            assert(pre.subrange(k, p) =~= rest.subrange(0, p - k));
            assert(starts_with_unit(pre));
            assert(!starts_with_split_pair(pre));
            assert(front_units(pre) == front_units(x));
            assert(wide_of_bytes(pre) == front_units(x) + wide_of_bytes(rest.subrange(0, p - k)));
            assert(wide_of_bytes(x) == front_units(x) + wide_of_bytes(rest));
            assert(wide_of_bytes(x) =~= wide_of_bytes(pre) + wide_of_bytes(x.subrange(p, n)));
        }
    }
}

/// A reached position lies within the sequence.
pub proof fn lemma_walk_bounds(x: Seq<u8>, p: int)
    requires
        walk(x, p),
    ensures
        0 <= p <= x.len(),
    decreases x.len(),
{
    if p != 0 {
        let k = unit_len(x) as int;
        lemma_walk_bounds(x.subrange(k, x.len() as int), p - k);
    }
}

/// Walking on from a reached position reaches the same later positions.
pub proof fn lemma_walk_shift(x: Seq<u8>, p: int, q: int)
    requires
        walk(x, p),
        walk(x, q),
        p <= q,
    ensures
        walk(x.subrange(p, x.len() as int), q - p),
    decreases x.len(),
{
    if p == 0 {
        assert(x.subrange(0, x.len() as int) =~= x);
    } else {
        let k = unit_len(x) as int;
        let rest = x.subrange(k, x.len() as int);
        lemma_walk_shift(rest, p - k, q - k);
        lemma_walk_bounds(rest, p - k);
        assert(rest.subrange(p - k, rest.len() as int) =~= x.subrange(p, x.len() as int));
    }
}

/// In well-formed WTF-8, a byte that is not a continuation byte begins a
/// sequence.
pub proof fn lemma_lead_is_reached(x: Seq<u8>, i: int)
    requires
        wf_units(x),
        0 < i < x.len(),
        !is_cont(x[i]),
    ensures
        walk(x, i),
    decreases x.len(),
{
    if !is_bare_high(x) {
        let k = unit_len(x) as int;
        let rest = x.subrange(k, x.len() as int);
        if i > k {
            assert(rest[i - k] == x[i]);
            lemma_lead_is_reached(rest, i - k);
        } else if i == k {
            assert(walk(rest, 0));
        }
    }
}

/// In well-formed WTF-8, a 4-byte lead with room for its sequence begins a
/// 4-byte sequence.
pub proof fn lemma_four_byte_lead(x: Seq<u8>, a: int)
    requires
        wf_units(x),
        0 <= a,
        a + 4 <= x.len(),
        x[a] >= 0xf0,
    ensures
        walk(x, a),
        walk(x, a + 4),
        is_four_byte_head(x[a], x[a + 1]),
        is_cont(x[a + 2]),
        is_cont(x[a + 3]),
    decreases x.len(),
{
    let k = unit_len(x) as int;
    let rest = x.subrange(k, x.len() as int);
    if a == 0 {
        assert(k == 4);
        assert(walk(rest, 0));
    } else {
        assert(a >= k);
        assert(rest[a - k] == x[a]);
        lemma_four_byte_lead(rest, a - k);
        assert(rest[a - k + 1] == x[a + 1] && rest[a - k + 2] == x[a + 2] && rest[a - k + 3] == x[a + 3]);
        assert(walk(x, a));
        lemma_walk_bounds(rest, a - k + 4);
    }
}

proof fn lemma_halves_of_four_bytes(b0: u8, b1: u8, b2: u8, b3: u8)
    by (bit_vector)
    requires
        0xf0 <= b0 <= 0xf4,
        0x80 <= b1 <= 0xbf,
        b0 == 0xf0 ==> b1 >= 0x90,
        b0 == 0xf4 ==> b1 <= 0x8f,
        0x80 <= b2 <= 0xbf,
        0x80 <= b3 <= 0xbf,
    ensures
        tbs_code_unit(be24(b0, b1, b2)) == high_of_offset(four_byte_offset(b0, b1, b2, b3)),
        tbs_code_unit(be24(b1, b2, b3)) == low_of_offset(four_byte_offset(b0, b1, b2, b3)),
{
}

/// The decoding of a 4-byte sequence, of its bare head and of its bare tail.
pub proof fn lemma_four_byte_halves(x: Seq<u8>)
    requires
        x.len() >= 4,
        is_four_byte_head(x[0], x[1]),
        is_cont(x[2]),
        is_cont(x[3]),
    ensures
        unit_len(x) == 4,
        front_units(x) == seq![
            tbs_code_unit(be24(x[0], x[1], x[2])),
            tbs_code_unit(be24(x[1], x[2], x[3])),
        ],
        is_bare_high(x.subrange(0, 3)),
        wide_of_bytes(x.subrange(0, 3)) == seq![tbs_code_unit(be24(x[0], x[1], x[2]))],
{
    lemma_halves_of_four_bytes(x[0], x[1], x[2], x[3]);
    let h = x.subrange(0, 3);
    assert(h[0] == x[0] && h[1] == x[1] && h[2] == x[2]);
    assert(h.subrange(3, 3) =~= Seq::<u8>::empty());
    assert(wide_of_bytes(h.subrange(3, 3)) =~= Seq::<u16>::empty());
    assert(wide_of_bytes(h) =~= seq![tbs_code_unit(be24(x[0], x[1], x[2]))]);
}

/// Cutting well-formed WTF-8 three bytes into a 4-byte sequence leaves
/// well-formed WTF-8 that ends with the sequence's bare head.
pub proof fn lemma_cut_into_four(x: Seq<u8>, a: int)
    requires
        wf_units(x),
        walk(x, a),
        a + 4 <= x.len(),
        is_four_byte_head(x[a], x[a + 1]),
        is_cont(x[a + 2]),
        is_cont(x[a + 3]),
    ensures
        wf_units(x.subrange(0, a + 3)),
        wide_of_bytes(x.subrange(0, a + 3)) == wide_of_bytes(x.subrange(0, a)) + seq![
            tbs_code_unit(be24(x[a], x[a + 1], x[a + 2])),
        ],
    decreases x.len(),
{
    let n = x.len() as int;
    if a == 0 {
        lemma_four_byte_halves(x);
        assert(x.subrange(0, 0) =~= Seq::<u8>::empty());
        assert(wide_of_bytes(Seq::<u8>::empty()) =~= Seq::<u16>::empty());
        assert(wide_of_bytes(x.subrange(0, 3)) =~= Seq::<u16>::empty() + seq![
            tbs_code_unit(be24(x[0], x[1], x[2])),
        ]);
    } else {
        let k = unit_len(x) as int;
        let rest = x.subrange(k, n);
        assert(!is_bare_high(x));
        assert(rest[a - k] == x[a] && rest[a - k + 1] == x[a + 1] && rest[a - k + 2] == x[a + 2]
            && rest[a - k + 3] == x[a + 3]);
        lemma_cut_into_four(rest, a - k);
        let pre = x.subrange(0, a + 3);
        let pre0 = x.subrange(0, a);
        assert(forall|i: int| 0 <= i < a ==> pre[i] == x[i] && pre0[i] == x[i]);
        assert(unit_len(pre) == k);
        assert(unit_len(pre0) == k);
        assert(pre.subrange(k, a + 3) =~= rest.subrange(0, a - k + 3));
        assert(pre0.subrange(k, a) =~= rest.subrange(0, a - k));
        assert(starts_with_unit(pre));
        assert(!starts_with_split_pair(pre));
        assert(front_units(pre) == front_units(x));
        assert(front_units(pre0) == front_units(x));
        assert(wide_of_bytes(pre) =~= wide_of_bytes(pre0) + seq![
            tbs_code_unit(be24(x[a], x[a + 1], x[a + 2])),
        ]);
    }
}

/// The index, among the code units of `b`, that cut `i` stands for: a cut
/// between the two surrogates of a 4-byte sequence stands between them.
pub open spec fn unit_index(b: Seq<u8>, i: int) -> int {
    if classify(b, i) == IndexType::FourByteSeq2 {
        wide_of_bytes(b.subrange(0, i - 2)).len() + 1int
    } else {
        wide_of_bytes(b.subrange(0, i)).len() as int
    }
}

/// The bytes between two cuts.
pub open spec fn slice_bytes(b: Seq<u8>, i: int, j: int) -> Seq<u8> {
    b.subrange(start_byte(b, i), end_byte(b, j))
}

/// Where the sequences after cut `i` begin.
pub open spec fn after_cut(b: Seq<u8>, i: int) -> int {
    if classify(b, i) == IndexType::FourByteSeq2 {
        i + 2
    } else {
        i
    }
}

/// Where the sequences before cut `j` end.
pub open spec fn before_cut(b: Seq<u8>, j: int) -> int {
    if classify(b, j) == IndexType::FourByteSeq2 {
        j - 2
    } else {
        j
    }
}

/// The two code units of the 4-byte sequence at `a`.
pub open spec fn pair_at(b: Seq<u8>, a: int) -> Seq<u16> {
    seq![tbs_code_unit(be24(b[a], b[a + 1], b[a + 2])), tbs_code_unit(be24(b[a + 1], b[a + 2], b[a + 3]))]
}

/// A 4-byte sequence at `a`, between two reached positions.
pub open spec fn four_at(b: Seq<u8>, a: int) -> bool {
    &&& 0 <= a
    &&& a + 4 <= b.len()
    &&& is_four_byte_head(b[a], b[a + 1])
    &&& is_cont(b[a + 2])
    &&& is_cont(b[a + 3])
    &&& walk(b, a)
    &&& walk(b, a + 4)
}

/// The decoding around a 4-byte sequence that the decoder reaches.
proof fn lemma_decode_around_four(b: Seq<u8>, a: int)
    requires
        wf_units(b),
        four_at(b, a),
    ensures
        wide_of_bytes(b) == wide_of_bytes(b.subrange(0, a)) + pair_at(b, a) + wide_of_bytes(
            b.subrange(a + 4, b.len() as int),
        ),
{
    let n = b.len() as int;
    lemma_walk_split(b, a);
    let u = b.subrange(a, n);
    let u4 = u.subrange(0, 4);
    let t = b.subrange(a + 4, n);
    assert(u =~= u4 + t);
    assert(u4[0] == b[a] && u4[1] == b[a + 1] && u4[2] == b[a + 2] && u4[3] == b[a + 3]);
    lemma_four_byte_halves(u4);
    assert((u4 + t)[0] == u4[0]);
    assert(unit_len(u4 + t) == 4);
    lemma_decode_front(u4, t);
    assert(front_units(u4 + t) == front_units(u4));
    assert(wide_of_bytes(b) =~= wide_of_bytes(b.subrange(0, a)) + pair_at(b, a) + wide_of_bytes(t));
}

/// A cut is a reached position, or lies in the middle of a 4-byte sequence.
proof fn lemma_cut_facts(b: Seq<u8>, i: int)
    requires
        wf_units(b),
        is_cut(b, i),
    ensures
        classify(b, i) == IndexType::FourByteSeq2 ==> four_at(b, i - 2),
        classify(b, i) != IndexType::FourByteSeq2 ==> walk(b, i),
        walk(b, after_cut(b, i)),
        walk(b, before_cut(b, i)),
{
    let n = b.len() as int;
    if classify(b, i) == IndexType::FourByteSeq2 {
        lemma_four_byte_lead(b, i - 2);
    } else if i == n {
        lemma_walk_end(b);
    } else if i > 0 {
        lemma_lead_is_reached(b, i);
    }
}

/// The bytes from `p` up to cut `j` (three bytes into a 4-byte sequence if
/// `j` is inside one) are well formed and decode to the code units between.
proof fn lemma_core(b: Seq<u8>, p: int, j: int)
    requires
        wf_units(b),
        is_cut(b, j),
        walk(b, p),
        p <= before_cut(b, j),
    ensures
        wf_units(b.subrange(p, end_byte(b, j))),
        wide_of_bytes(b.subrange(p, end_byte(b, j))) == wide_of_bytes(b.subrange(p, before_cut(b, j)))
            + (if classify(b, j) == IndexType::FourByteSeq2 {
            seq![pair_at(b, j - 2)[0]]
        } else {
            seq![]
        }),
{
    let n = b.len() as int;
    let q = before_cut(b, j);
    lemma_cut_facts(b, j);
    lemma_walk_split(b, p);
    let t = b.subrange(p, n);
    lemma_walk_shift(b, p, q);
    let a = q - p;
    lemma_walk_split(t, a);
    assert(t.subrange(0, a) =~= b.subrange(p, q));
    if classify(b, j) == IndexType::FourByteSeq2 {
        assert(t[a] == b[q] && t[a + 1] == b[q + 1] && t[a + 2] == b[q + 2] && t[a + 3] == b[q + 3]);
        lemma_cut_into_four(t, a);
        assert(t.subrange(0, a + 3) =~= b.subrange(p, end_byte(b, j)));
    } else {
        assert(t.subrange(0, a) =~= b.subrange(p, end_byte(b, j)));
        assert(wide_of_bytes(b.subrange(p, q)) + Seq::<u16>::empty() =~= wide_of_bytes(b.subrange(p, q)));
    }
}

/// Two cuts in order leave the sequences between them in order.
proof fn lemma_cuts_ordered(b: Seq<u8>, i: int, j: int)
    requires
        wf_units(b),
        i < j,
        is_cut(b, i),
        is_cut(b, j),
    ensures
        after_cut(b, i) <= before_cut(b, j),
{
    lemma_cut_facts(b, i);
    lemma_cut_facts(b, j);
}

/// The code units of `b`, split at the reached positions around two cuts.
proof fn lemma_units_around(b: Seq<u8>, i: int, j: int)
    requires
        wf_units(b),
        i < j,
        is_cut(b, i),
        is_cut(b, j),
    ensures
        ({
            let p = after_cut(b, i);
            let q = before_cut(b, j);
            let n = b.len() as int;
            let fi = classify(b, i) == IndexType::FourByteSeq2;
            let fj = classify(b, j) == IndexType::FourByteSeq2;
            let aw = wide_of_bytes(b.subrange(0, if fi { i - 2 } else { i }));
            let pw = if fi { pair_at(b, i - 2) } else { seq![] };
            let qw = if fj { pair_at(b, j - 2) } else { seq![] };
            let rw = wide_of_bytes(b.subrange(if fj { j + 2 } else { j }, n));
            &&& wide_of_bytes(b) == aw + pw + wide_of_bytes(b.subrange(p, q)) + qw + rw
            &&& wide_of_bytes(b.subrange(0, q)) == aw + pw + wide_of_bytes(b.subrange(p, q))
        }),
{
    let n = b.len() as int;
    let p = after_cut(b, i);
    let q = before_cut(b, j);
    let fi = classify(b, i) == IndexType::FourByteSeq2;
    let fj = classify(b, j) == IndexType::FourByteSeq2;
    lemma_cut_facts(b, i);
    lemma_cut_facts(b, j);
    lemma_cuts_ordered(b, i, j);
    // split at p
    if fi {
        lemma_decode_around_four(b, i - 2);
    } else {
        lemma_walk_split(b, i);
    }
    let t = b.subrange(p, n);
    lemma_walk_split(b, p);
    lemma_walk_shift(b, p, q);
    lemma_walk_split(t, q - p);
    assert(t.subrange(0, q - p) =~= b.subrange(p, q));
    assert(t.subrange(q - p, t.len() as int) =~= b.subrange(q, n));
    // split at q
    if fj {
        lemma_decode_around_four(b, j - 2);
        lemma_walk_split(b, q);
        let v = b.subrange(q, n);
        assert(wf_units(v));
        assert(four_at(b, q));
        lemma_walk_shift(b, q, q + 4);
        assert(v[0] == b[q] && v[1] == b[q + 1] && v[2] == b[q + 2] && v[3] == b[q + 3]);
        assert(walk(v, 0));
        lemma_decode_around_four(v, 0);
        assert(v.subrange(0, 0) =~= Seq::<u8>::empty());
        assert(v.subrange(4, v.len() as int) =~= b.subrange(j + 2, n));
        assert(pair_at(v, 0) == pair_at(b, q));
        assert(wide_of_bytes(v.subrange(0, 0)) =~= Seq::<u16>::empty());
    }
    let aw = wide_of_bytes(b.subrange(0, if fi { i - 2 } else { i }));
    let pw = if fi { pair_at(b, i - 2) } else { seq![] };
    let qw = if fj { pair_at(b, j - 2) } else { seq![] };
    let rw = wide_of_bytes(b.subrange(if fj { j + 2 } else { j }, n));
    assert(wide_of_bytes(b.subrange(q, n)) =~= qw + rw);
    assert(wide_of_bytes(b) =~= aw + pw + wide_of_bytes(b.subrange(p, q)) + qw + rw);
    lemma_walk_split(b, q);
    let left = wide_of_bytes(b.subrange(0, q));
    let mid = aw + pw + wide_of_bytes(b.subrange(p, q));
    assert(left.len() == mid.len());
    assert forall|k: int| 0 <= k < left.len() implies left[k] == mid[k] by {
        assert(left[k] == wide_of_bytes(b)[k]);
        assert(mid[k] == (mid + (qw + rw))[k]);
        assert(mid + (qw + rw) =~= aw + pw + wide_of_bytes(b.subrange(p, q)) + qw + rw);
    }
    assert(left =~= mid);
}

/// A slice of well-formed WTF-8 between two cuts is well formed and decodes
/// to the code units between the cuts.
pub proof fn lemma_slice_units(b: Seq<u8>, i: int, j: int)
    requires
        wf_units(b),
        i < j,
        is_cut(b, i),
        is_cut(b, j),
    ensures
        well_formed(slice_bytes(b, i, j)),
        classify(b, i) != IndexType::FourByteSeq2 ==> wf_units(slice_bytes(b, i, j)),
        0 <= unit_index(b, i) <= unit_index(b, j) <= wide_of_bytes(b).len(),
        wide_of_bytes(slice_bytes(b, i, j)) == wide_of_bytes(b).subrange(
            unit_index(b, i),
            unit_index(b, j),
        ),
{
    let n = b.len() as int;
    let p = after_cut(b, i);
    let q = before_cut(b, j);
    let fi = classify(b, i) == IndexType::FourByteSeq2;
    let fj = classify(b, j) == IndexType::FourByteSeq2;
    lemma_cut_facts(b, i);
    lemma_cut_facts(b, j);
    lemma_cuts_ordered(b, i, j);
    lemma_units_around(b, i, j);
    lemma_core(b, p, j);
    let w = wide_of_bytes(b);
    let aw = wide_of_bytes(b.subrange(0, if fi { i - 2 } else { i }));
    let pw = if fi { pair_at(b, i - 2) } else { seq![] };
    let qw = if fj { pair_at(b, j - 2) } else { seq![] };
    let rw = wide_of_bytes(b.subrange(if fj { j + 2 } else { j }, n));
    let mw = wide_of_bytes(b.subrange(p, q));
    let core = b.subrange(p, end_byte(b, j));
    let sl = slice_bytes(b, i, j);
    let lo: Seq<u16> = if fi { seq![pair_at(b, i - 2)[1]] } else { seq![] };
    let hi: Seq<u16> = if fj { seq![pair_at(b, j - 2)[0]] } else { seq![] };
    if fi {
        let l = b.subrange(i - 1, i + 2);
        assert(sl =~= l + core);
        assert(sl[0] == b[i - 1] && sl[1] == b[i] && sl[2] == b[i + 1]);
        assert(unit_len(l + core) == 3);
        lemma_decode_front(l, core);
        assert(front_units(l + core) =~= lo);
        assert(starts_with_bare_low(sl));
        assert(sl.subrange(3, sl.len() as int) =~= core);
    } else {
        assert(sl =~= core);
        assert(wide_of_bytes(sl) =~= lo + wide_of_bytes(core));
    }
    assert(wide_of_bytes(sl) =~= lo + mw + hi);
    assert(unit_index(b, i) == aw.len() + lo.len());
    assert(unit_index(b, j) == aw.len() + pw.len() + mw.len() + hi.len());
    assert(lo + mw + hi =~= w.subrange(unit_index(b, i), unit_index(b, j)));
}

/// Behind a leading bare low-surrogate group, indices classify as they do
/// in the rest of the string.
proof fn lemma_classify_shift(b: Seq<u8>, k: int)
    requires
        starts_with_bare_low(b),
        wf_units(b.subrange(3, b.len() as int)),
        3 <= k,
    ensures
        classify(b, k) == classify(b.subrange(3, b.len() as int), k - 3),
        unit_len(b) == 3,
{
    let body = b.subrange(3, b.len() as int);
    if k < b.len() {
        assert(body[k - 3] == b[k]);
    }
    if k - 4 >= 0 && k - 4 < body.len() {
        assert(body[k - 4] == b[k - 1]);
    }
    if k - 5 >= 0 && k - 5 < body.len() {
        assert(body[k - 5] == b[k - 2]);
    }
    if k - 6 >= 0 && k - 6 < body.len() {
        assert(body[k - 6] == b[k - 3]);
    }
    if k == 3 && body.len() > 0 {
        assert(!is_cont(body[0]));
    }
}

/// The code units before index `k >= 3` of a string that begins with a bare
/// low-surrogate group: that group's, then the rest's.
proof fn lemma_prefix_after_low(b: Seq<u8>, k: int)
    requires
        starts_with_bare_low(b),
        3 <= k <= b.len(),
    ensures
        wide_of_bytes(b.subrange(0, k)) == seq![front_units(b)[0]] + wide_of_bytes(
            b.subrange(3, k),
        ),
{
    let l = b.subrange(0, 3);
    let r = b.subrange(3, k);
    assert(b.subrange(0, k) =~= l + r);
    assert((l + r)[0] == b[0] && (l + r)[1] == b[1] && (l + r)[2] == b[2]);
    lemma_decode_front(l, r);
}

/// Behind a leading bare low-surrogate group, the code-unit index of a cut
/// is one more than in the rest of the string.
proof fn lemma_unit_index_after_low(b: Seq<u8>, k: int)
    requires
        starts_with_bare_low(b),
        wf_units(b.subrange(3, b.len() as int)),
        3 <= k <= b.len(),
        is_cut(b, k),
    ensures
        unit_index(b, k) == unit_index(b.subrange(3, b.len() as int), k - 3) + 1,
        is_cut(b.subrange(3, b.len() as int), k - 3),
{
    let body = b.subrange(3, b.len() as int);
    lemma_classify_shift(b, k);
    let m = if classify(b, k) == IndexType::FourByteSeq2 { k - 2 } else { k };
    if classify(b, k) == IndexType::FourByteSeq2 {
        assert(k - 3 >= 2);
    }
    lemma_prefix_after_low(b, m);
    assert(b.subrange(3, m) =~= body.subrange(0, m - 3));
}

/// A slice that starts behind a leading bare low-surrogate group is a slice
/// of the rest of the string.
proof fn lemma_slice_after_low_inner(b: Seq<u8>, i: int, j: int)
    requires
        starts_with_bare_low(b),
        wf_units(b.subrange(3, b.len() as int)),
        3 <= i < j,
        is_cut(b, i),
        is_cut(b, j),
    ensures
        well_formed(slice_bytes(b, i, j)),
        0 <= unit_index(b, i) <= unit_index(b, j) <= wide_of_bytes(b).len(),
        wide_of_bytes(slice_bytes(b, i, j)) == wide_of_bytes(b).subrange(
            unit_index(b, i),
            unit_index(b, j),
        ),
{
    let n = b.len() as int;
    let body = b.subrange(3, n);
    lemma_unit_index_after_low(b, i);
    lemma_unit_index_after_low(b, j);
    lemma_classify_shift(b, i);
    lemma_classify_shift(b, j);
    lemma_slice_units(body, i - 3, j - 3);
    lemma_prefix_after_low(b, n);
    assert(b.subrange(0, n) =~= b);
    assert(slice_bytes(b, i, j) =~= slice_bytes(body, i - 3, j - 3));
    assert(wide_of_bytes(body).subrange(unit_index(body, i - 3), unit_index(body, j - 3))
        =~= wide_of_bytes(b).subrange(unit_index(b, i), unit_index(b, j)));
}

/// A slice from the front of a string that begins with a bare low-surrogate
/// group keeps that group before a slice of the rest.
proof fn lemma_slice_after_low_front(b: Seq<u8>, j: int)
    requires
        starts_with_bare_low(b),
        wf_units(b.subrange(3, b.len() as int)),
        3 <= j,
        is_cut(b, j),
    ensures
        well_formed(slice_bytes(b, 0, j)),
        0 <= unit_index(b, 0) <= unit_index(b, j) <= wide_of_bytes(b).len(),
        wide_of_bytes(slice_bytes(b, 0, j)) == wide_of_bytes(b).subrange(
            unit_index(b, 0),
            unit_index(b, j),
        ),
{
    let n = b.len() as int;
    let body = b.subrange(3, n);
    lemma_unit_index_after_low(b, j);
    lemma_classify_shift(b, j);
    lemma_prefix_after_low(b, n);
    assert(b.subrange(0, n) =~= b);
    assert(b.subrange(0, 0) =~= Seq::<u8>::empty());
    assert(wide_of_bytes(Seq::<u8>::empty()) =~= Seq::<u16>::empty());
    assert(unit_index(b, 0) == 0);
    let sl = slice_bytes(b, 0, j);
    if j == 3 {
        assert(sl =~= b.subrange(0, 3));
        lemma_prefix_after_low(b, 3);
        assert(b.subrange(3, 3) =~= Seq::<u8>::empty());
        assert(sl.subrange(3, 3) =~= Seq::<u8>::empty());
        assert(wf_units(sl.subrange(3, 3)));
        assert(wide_of_bytes(sl) =~= wide_of_bytes(b).subrange(0, unit_index(b, j)));
    } else {
        assert(classify(body, 0) == IndexType::CharBoundary);
        lemma_slice_units(body, 0, j - 3);
        let s2 = slice_bytes(body, 0, j - 3);
        assert(sl.subrange(3, sl.len() as int) =~= s2);
        lemma_prefix_after_low(b, sl.len() as int);
        assert(sl =~= b.subrange(0, sl.len() as int));
        assert(b.subrange(3, sl.len() as int) =~= s2);
        assert(body.subrange(0, 0) =~= Seq::<u8>::empty());
        assert(unit_index(body, 0) == 0);
        assert(wide_of_bytes(sl) =~= wide_of_bytes(b).subrange(0, unit_index(b, j)));
    }
}

/// A slice between two cuts of a well-formed string is well formed and
/// decodes to the code units between the cuts.
pub proof fn lemma_slice(b: Seq<u8>, i: int, j: int)
    requires
        well_formed(b),
        i < j,
        is_cut(b, i),
        is_cut(b, j),
    ensures
        well_formed(slice_bytes(b, i, j)),
        0 <= unit_index(b, i) <= unit_index(b, j) <= wide_of_bytes(b).len(),
        wide_of_bytes(slice_bytes(b, i, j)) == wide_of_bytes(b).subrange(
            unit_index(b, i),
            unit_index(b, j),
        ),
{
    if wf_units(b) {
        lemma_slice_units(b, i, j);
    } else {
        // cuts at 1 and 2 fall inside the leading group
        assert(i != 1 && i != 2 && j != 1 && j != 2);
        if i >= 3 {
            lemma_slice_after_low_inner(b, i, j);
        } else {
            lemma_slice_after_low_front(b, j);
        }
    }
}

} // verus!
