//! The canonical triple of a string, and the equality, order and hash that
//! are defined over it.
use vstd::prelude::*;
use std::cmp::Ordering;
use std::collections::hash_map::DefaultHasher;
use std::hash::Hasher;
use crate::string::OmgWtf8;
use crate::tbs::{be24, tbs_tag, ThreeByteSeq};

verus! {

pub open spec fn is_high_tag(c: u16) -> bool {
    0xa000 <= c <= 0xafff
}

pub open spec fn is_low_tag(c: u16) -> bool {
    0xb000 <= c <= 0xbfff
}

/// The tag of the first three bytes.
pub open spec fn front_tag(b: Seq<u8>) -> u16 {
    tbs_tag(be24(b[0], b[1], b[2]))
}

/// The tag of the last three bytes.
pub open spec fn back_tag(b: Seq<u8>) -> u16 {
    let n = b.len() as int;
    tbs_tag(be24(b[n - 3], b[n - 2], b[n - 1]))
}

/// The string begins with a low surrogate group, which is peeled off.
pub open spec fn peels_low(b: Seq<u8>) -> bool {
    b.len() >= 3 && is_low_tag(front_tag(b))
}

/// The string ends with a high surrogate group, which is peeled off; in a
/// string of under 6 bytes only when no low group was.
pub open spec fn peels_high(b: Seq<u8>) -> bool {
    &&& b.len() >= 3
    &&& is_high_tag(back_tag(b))
    &&& b.len() >= 6 || !peels_low(b)
}

/// The canonical triple `(low_tag, middle, high_tag)`: a tag is 0 when its
/// end has no surrogate group to peel.
pub open spec fn canonical_triple(b: Seq<u8>) -> (u16, Seq<u8>, u16) {
    let n = b.len() as int;
    let lo: u16 = if peels_low(b) { front_tag(b) } else { 0 };
    let hi: u16 = if peels_high(b) { back_tag(b) } else { 0 };
    let start: int = if peels_low(b) { 3 } else { 0 };
    let end: int = if peels_high(b) { n - 3 } else { n };
    (lo, b.subrange(start, end), hi)
}

pub open spec fn cmp_int(a: int, b: int) -> Ordering {
    if a < b {
        Ordering::Less
    } else if a == b {
        Ordering::Equal
    } else {
        Ordering::Greater
    }
}

/// Lexicographic order of byte sequences; a proper prefix comes first.
pub open spec fn bytes_cmp(a: Seq<u8>, b: Seq<u8>) -> Ordering
    decreases a.len(),
{
    if a.len() == 0 && b.len() == 0 {
        Ordering::Equal
    } else if a.len() == 0 {
        Ordering::Less
    } else if b.len() == 0 {
        Ordering::Greater
    } else if a[0] != b[0] {
        cmp_int(a[0] as int, b[0] as int)
    } else {
        bytes_cmp(a.drop_first(), b.drop_first())
    }
}

/// Lexicographic order of canonical triples.
pub open spec fn triple_cmp(x: (u16, Seq<u8>, u16), y: (u16, Seq<u8>, u16)) -> Ordering {
    if x.0 != y.0 {
        cmp_int(x.0 as int, y.0 as int)
    } else if bytes_cmp(x.1, y.1) != Ordering::Equal {
        bytes_cmp(x.1, y.1)
    } else {
        cmp_int(x.2 as int, y.2 as int)
    }
}

/// The order of two strings.
pub open spec fn spec_cmp(a: Seq<u8>, b: Seq<u8>) -> Ordering {
    triple_cmp(canonical_triple(a), canonical_triple(b))
}

/// The two bytes of a tag, least significant first.
pub open spec fn tag_bytes(c: u16) -> Seq<u8> {
    seq![(c & 0xff) as u8, (c >> 8) as u8]
}

/// What `hash_into` writes to a `DefaultHasher`, write by write: the two
/// bytes of the low tag (least significant first), the middle bytes with no
/// length before them, and the two bytes of the high tag. The `Hash` impl,
/// which hash maps use, feeds the same triple through std's own impls and
/// writes differently.
pub open spec fn hash_writes(b: Seq<u8>) -> Seq<Seq<u8>> {
    let t = canonical_triple(b);
    seq![tag_bytes(t.0), t.1, tag_bytes(t.2)]
}

fn bytes_eq(a: &[u8], b: &[u8]) -> (r: bool)
    ensures
        r == (a@ == b@),
{
    if a.len() != b.len() {
        return false;
    }
    let mut i: usize = 0;
    while i < a.len()
        invariant
            i <= a@.len() == b@.len(),
            a@.subrange(0, i as int) == b@.subrange(0, i as int),
        decreases a@.len() - i,
    {
        if a[i] != b[i] {
            assert(a@[i as int] != b@[i as int]);
            return false;
        }
        assert(a@.subrange(0, i + 1) =~= a@.subrange(0, i as int).push(a@[i as int]));
        assert(b@.subrange(0, i + 1) =~= b@.subrange(0, i as int).push(b@[i as int]));
        i = i + 1;
    }
    assert(a@ =~= a@.subrange(0, i as int));
    assert(b@ =~= b@.subrange(0, i as int));
    true
}

fn cmp_u16(a: u16, b: u16) -> (r: Ordering)
    ensures
        r == cmp_int(a as int, b as int),
{
    if a < b {
        Ordering::Less
    } else if a == b {
        Ordering::Equal
    } else {
        Ordering::Greater
    }
}

fn bytes_cmp_exec(a: &[u8], b: &[u8]) -> (r: Ordering)
    ensures
        r == bytes_cmp(a@, b@),
{
    let mut i: usize = 0;
    assert(a@.subrange(0, a@.len() as int) =~= a@);
    assert(b@.subrange(0, b@.len() as int) =~= b@);
    while i < a.len() && i < b.len()
        invariant
            i <= a@.len(),
            i <= b@.len(),
            a@.subrange(0, i as int) == b@.subrange(0, i as int),
            bytes_cmp(a@, b@) == bytes_cmp(a@.subrange(i as int, a@.len() as int), b@.subrange(
                i as int,
                b@.len() as int,
            )),
        decreases a@.len() - i,
    {
        let ghost sa = a@.subrange(i as int, a@.len() as int);
        let ghost sb = b@.subrange(i as int, b@.len() as int);
        if a[i] != b[i] {
            assert(sa[0] == a@[i as int] && sb[0] == b@[i as int]);
            return cmp_u16(a[i] as u16, b[i] as u16);
        }
        assert(sa.drop_first() =~= a@.subrange(i + 1, a@.len() as int));
        assert(sb.drop_first() =~= b@.subrange(i + 1, b@.len() as int));
        assert(a@.subrange(0, i + 1) =~= a@.subrange(0, i as int).push(a@[i as int]));
        assert(b@.subrange(0, i + 1) =~= b@.subrange(0, i as int).push(b@[i as int]));
        i = i + 1;
    }
    if i < a.len() {
        Ordering::Greater
    } else if i < b.len() {
        Ordering::Less
    } else {
        Ordering::Equal
    }
}

impl OmgWtf8 {
    /// Splits the string into the low surrogate that begins it, the
    /// well-formed WTF-8 in the middle, and the high surrogate that ends it.
    pub fn canonicalize(&self) -> (r: (u16, &[u8], u16))
        ensures
            (r.0, r.1@, r.2) == canonical_triple(self@),
    {
        let s = self.as_bytes();
        let len = s.len();
        if len < 3 {
            return (0, s, 0);
        }
        let beg = ThreeByteSeq::new(s).canonicalize();
        let end = ThreeByteSeq::new(vstd::slice::slice_subrange(s, len - 3, len)).canonicalize();
        assert(s@.subrange(len - 3, len as int)[0] == s@[len - 3]);
        assert(s@.subrange(len - 3, len as int)[1] == s@[len - 2]);
        assert(s@.subrange(len - 3, len as int)[2] == s@[len - 1]);
        let low = 0xb000 <= beg && beg <= 0xbfff;
        let high = 0xa000 <= end && end <= 0xafff && (len >= 6 || !low);
        let lo: u16 = if low { beg } else { 0 };
        let hi: u16 = if high { end } else { 0 };
        let start: usize = if low { 3 } else { 0 };
        let stop: usize = if high { len - 3 } else { len };
        assert(start <= stop) by {
            if low && high {
                assert(len >= 6);
            }
        }
        (lo, vstd::slice::slice_subrange(s, start, stop), hi)
    }

    /// The order of two strings: lexicographic on their canonical triples.
    /// It is left unspecified in detail where unpaired surrogates differ.
    pub fn cmp(&self, other: &OmgWtf8) -> (r: Ordering)
        ensures
            r == spec_cmp(self@, other@),
    {
        let (a0, a1, a2) = self.canonicalize();
        let (b0, b1, b2) = other.canonicalize();
        if a0 != b0 {
            return cmp_u16(a0, b0);
        }
        let mid = bytes_cmp_exec(a1, b1);
        match mid {
            Ordering::Equal => cmp_u16(a2, b2),
            _ => mid,
        }
    }

    /// Feeds the canonical triple to a hasher: the low tag, the middle bytes
    /// and the high tag, in that order.
    pub fn hash_into(&self, state: &mut DefaultHasher)
        ensures
            final(state)@ == old(state)@ + hash_writes(self@),
    {
        let (lo, mid, hi) = self.canonicalize();
        let lo_bytes: [u8; 2] = [(lo & 0xff) as u8, (lo >> 8) as u8];
        let hi_bytes: [u8; 2] = [(hi & 0xff) as u8, (hi >> 8) as u8];
        state.write(lo_bytes.as_slice());
        state.write(mid);
        state.write(hi_bytes.as_slice());
        assert(lo_bytes@ =~= tag_bytes(lo));
        assert(hi_bytes@ =~= tag_bytes(hi));
        assert(final(state)@ =~= old(state)@ + hash_writes(self@));
    }
}

impl PartialEq for OmgWtf8 {
    fn eq(&self, other: &OmgWtf8) -> (r: bool) {
        let (a0, a1, a2) = self.canonicalize();
        let (b0, b1, b2) = other.canonicalize();
        a0 == b0 && bytes_eq(a1, b1) && a2 == b2
    }
}

impl vstd::std_specs::cmp::PartialEqSpecImpl for OmgWtf8 {
    open spec fn obeys_eq_spec() -> bool {
        true
    }

    open spec fn eq_spec(&self, other: &OmgWtf8) -> bool {
        canonical_triple(self@) == canonical_triple(other@)
    }
}

/// Relies on std's `Hash` for `u16`, which feeds the value to the hasher;
/// nothing is stated of the hasher's state.
pub assume_specification<Hs: core::hash::Hasher>[ <u16 as core::hash::Hash>::hash::<Hs> ](
    v: &u16,
    state: &mut Hs,
);

/// Relies on std's `Hash` for slices, which feeds the length and the
/// elements to the hasher; nothing is stated of the hasher's state.
pub assume_specification<Item: core::hash::Hash, Hs: core::hash::Hasher>[ <[Item] as core::hash::Hash>::hash::<Hs> ](
    v: &[Item],
    state: &mut Hs,
);

/// Hashes the canonical triple, so that equal strings hash alike.
impl core::hash::Hash for OmgWtf8 {
    fn hash<H: core::hash::Hasher>(&self, state: &mut H) {
        let (lo, mid, hi) = self.canonicalize();
        lo.hash(state);
        mid.hash(state);
        hi.hash(state);
    }
}

impl Eq for OmgWtf8 {

}

impl PartialOrd for OmgWtf8 {
    fn partial_cmp(&self, other: &OmgWtf8) -> (r: Option<Ordering>) {
        Some(self.cmp(other))
    }
}

impl vstd::std_specs::cmp::PartialOrdSpecImpl for OmgWtf8 {
    open spec fn obeys_partial_cmp_spec() -> bool {
        true
    }

    open spec fn partial_cmp_spec(&self, other: &OmgWtf8) -> Option<Ordering> {
        Some(spec_cmp(self@, other@))
    }
}

} // verus!
