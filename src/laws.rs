//! The laws that the library's operations obey together.
use vstd::prelude::*;
use std::cmp::Ordering;
use vstd::utf8::valid_utf8;
use crate::cmp::{bytes_cmp, canonical_triple, cmp_int, hash_writes, spec_cmp};
use crate::encoding::{bytes_of_wide, well_formed, wide_of_bytes};
use crate::lemmas::{lemma_round_trip, lemma_valid_utf8_wf};
use crate::canon::{lemma_canonical_bytes_equivalent, lemma_canonical_bytes_stable};
use crate::conv::canonical_bytes;
use crate::cuts::{lemma_slice, slice_bytes, unit_index};
use crate::slice::is_cut;
use crate::equiv::lemma_eq_iff_same_units;

verus! {

/// Decoding what `from_wide` encodes gives back the same code units, for
/// every sequence of 16-bit code units.
pub proof fn law_round_trip(w: Seq<u16>)
    ensures
        wide_of_bytes(bytes_of_wide(w)) == w,
{
    lemma_round_trip(w);
}

/// Every valid UTF-8 byte sequence is a well-formed OMG-WTF-8 string.
pub proof fn law_utf8_is_well_formed(b: Seq<u8>)
    requires
        valid_utf8(b),
    ensures
        well_formed(b),
{
    lemma_valid_utf8_wf(b);
}

/// Equal strings feed their hasher the same writes.
pub proof fn law_hash_consistent(a: Seq<u8>, b: Seq<u8>)
    requires
        canonical_triple(a) == canonical_triple(b),
    ensures
        hash_writes(a) == hash_writes(b),
{
}

proof fn lemma_bytes_cmp_equal(a: Seq<u8>, b: Seq<u8>)
    ensures
        (bytes_cmp(a, b) == Ordering::Equal) == (a == b),
    decreases a.len(),
{
    if a.len() > 0 && b.len() > 0 && a[0] == b[0] {
        lemma_bytes_cmp_equal(a.drop_first(), b.drop_first());
        if a.drop_first() == b.drop_first() {
            assert(a =~= seq![a[0]] + a.drop_first());
            assert(b =~= seq![b[0]] + b.drop_first());
        }
    } else if a.len() > 0 && b.len() > 0 {
        assert(a[0] != b[0]);
    } else if a.len() == 0 && b.len() == 0 {
        assert(a =~= b);
    }
}

proof fn lemma_bytes_cmp_antisymmetric(a: Seq<u8>, b: Seq<u8>)
    ensures
        (bytes_cmp(a, b) == Ordering::Less) == (bytes_cmp(b, a) == Ordering::Greater),
        (bytes_cmp(a, b) == Ordering::Greater) == (bytes_cmp(b, a) == Ordering::Less),
    decreases a.len(),
{
    if a.len() > 0 && b.len() > 0 && a[0] == b[0] {
        lemma_bytes_cmp_antisymmetric(a.drop_first(), b.drop_first());
    }
}

proof fn lemma_bytes_cmp_transitive(a: Seq<u8>, b: Seq<u8>, c: Seq<u8>)
    requires
        bytes_cmp(a, b) == Ordering::Less,
        bytes_cmp(b, c) == Ordering::Less,
    ensures
        bytes_cmp(a, c) == Ordering::Less,
    decreases a.len(),
{
    if a.len() > 0 && b.len() > 0 && c.len() > 0 && a[0] == b[0] && b[0] == c[0] {
        lemma_bytes_cmp_transitive(a.drop_first(), b.drop_first(), c.drop_first());
    }
}

/// Two strings compare `Equal` exactly when they are equal, that is when
/// their canonical triples are.
pub proof fn law_cmp_equal_iff_eq(a: Seq<u8>, b: Seq<u8>)
    ensures
        (spec_cmp(a, b) == Ordering::Equal) == (canonical_triple(a) == canonical_triple(b)),
{
    let (x, y) = (canonical_triple(a), canonical_triple(b));
    lemma_bytes_cmp_equal(x.1, y.1);
}

/// `a` comes before `b` exactly when `b` comes after `a`.
pub proof fn law_cmp_antisymmetric(a: Seq<u8>, b: Seq<u8>)
    ensures
        (spec_cmp(a, b) == Ordering::Less) == (spec_cmp(b, a) == Ordering::Greater),
{
    let (x, y) = (canonical_triple(a), canonical_triple(b));
    lemma_bytes_cmp_antisymmetric(x.1, y.1);
}

/// The order is transitive.
pub proof fn law_cmp_transitive(a: Seq<u8>, b: Seq<u8>, c: Seq<u8>)
    requires
        spec_cmp(a, b) == Ordering::Less,
        spec_cmp(b, c) == Ordering::Less,
    ensures
        spec_cmp(a, c) == Ordering::Less,
{
    let (x, y, z) = (canonical_triple(a), canonical_triple(b), canonical_triple(c));
    lemma_bytes_cmp_equal(x.1, y.1);
    lemma_bytes_cmp_equal(y.1, z.1);
    if x.0 == y.0 && y.0 == z.0 && bytes_cmp(x.1, y.1) == Ordering::Less && bytes_cmp(y.1, z.1)
        == Ordering::Less {
        lemma_bytes_cmp_transitive(x.1, y.1, z.1);
    }
    if x.0 == y.0 && y.0 == z.0 && bytes_cmp(x.1, y.1) == Ordering::Equal && bytes_cmp(y.1, z.1)
        == Ordering::Equal {
        lemma_bytes_cmp_equal(x.1, z.1);
    }
}

/// Copying a canonical copy changes no byte, and a canonical copy of a
/// well-formed string is equal to it.
pub proof fn law_canonical_copy_stable(b: Seq<u8>)
    ensures
        canonical_bytes(canonical_bytes(b)) == canonical_bytes(b),
        well_formed(b) ==> well_formed(canonical_bytes(b)) && canonical_triple(canonical_bytes(b))
            == canonical_triple(b),
{
    lemma_canonical_bytes_stable(b);
    if well_formed(b) {
        lemma_canonical_bytes_equivalent(b);
    }
}

/// A slice of a well-formed string between two cuts `i <= j` is well formed,
/// and its code units are those of the string between the code-unit
/// indices that the cuts stand for.
pub proof fn law_slice_well_formed(b: Seq<u8>, i: int, j: int)
    requires
        well_formed(b),
        i <= j,
        is_cut(b, i),
        is_cut(b, j),
    ensures
        0 <= unit_index(b, i) <= unit_index(b, j) <= wide_of_bytes(b).len(),
        ({
            let s = if i == j { Seq::<u8>::empty() } else { slice_bytes(b, i, j) };
            &&& well_formed(s)
            &&& wide_of_bytes(s) == wide_of_bytes(b).subrange(unit_index(b, i), unit_index(b, j))
        }),
{
    if i < j {
        lemma_slice(b, i, j);
    } else {
        let n = b.len() as int;
        assert(b.subrange(0, n) =~= b);
        if i < n {
            lemma_slice(b, i, n);
        }
        assert(crate::encoding::wf_units(Seq::<u8>::empty()));
        assert(wide_of_bytes(Seq::<u8>::empty()) =~= wide_of_bytes(b).subrange(
            unit_index(b, i),
            unit_index(b, j),
        ));
    }
}

/// Two well-formed strings are equal (their canonical triples are) exactly
/// when they decode to the same code units.
pub proof fn law_eq_iff_same_units(a: Seq<u8>, b: Seq<u8>)
    requires
        well_formed(a),
        well_formed(b),
    ensures
        (canonical_triple(a) == canonical_triple(b)) == (wide_of_bytes(a) == wide_of_bytes(b)),
{
    lemma_eq_iff_same_units(a, b);
}

} // verus!
