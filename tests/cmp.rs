use omgwtf8::string::OmgWtf8;
use std::cmp::Ordering;
use std::collections::hash_map::DefaultHasher;
use std::collections::HashSet;
use std::hash::Hasher;

#[test]
fn test_ow8_canonicalized_equality() {
    assert_eq!(
        OmgWtf8::from_bytes_unchecked(b"\xed\xb8\x83\xed\xa5\xa6"),
        OmgWtf8::from_bytes_unchecked(b"\xed\xb8\x83\xed\xa5\xa6"),
    );
    assert_eq!(
        OmgWtf8::from_bytes_unchecked(b"\xed\xb8\x83\xed\xa5\xa6"),
        OmgWtf8::from_bytes_unchecked(b"\xed\xb8\x83\xf1\xa9\xa8"),
    );
    assert_eq!(
        OmgWtf8::from_bytes_unchecked(b"\xed\xb8\x83\xed\xa5\xa6"),
        OmgWtf8::from_bytes_unchecked(b"\xa9\xa8\x83\xed\xa5\xa6"),
    );
    assert_eq!(
        OmgWtf8::from_bytes_unchecked(b"\xed\xb8\x83\xed\xa5\xa6\xed\xa5\xa6"),
        OmgWtf8::from_bytes_unchecked(b"\xa9\xa8\x83\xed\xa5\xa6\xed\xa5\xa6"),
    );
    assert_eq!(
        OmgWtf8::from_bytes_unchecked(b"\xed\xb8\x83\xed\xa5\xa6"),
        OmgWtf8::from_bytes_unchecked(b"\xa9\xa8\x83\xf1\xa9\xa8"),
    );
    assert_eq!(
        OmgWtf8::from_bytes_unchecked(b"\xed\xb8\x83\xed\xa5\xa6"),
        OmgWtf8::from_bytes_unchecked(b"\x93\xa8\x83\xf1\xa9\xa3"),
    );
    assert_eq!(
        OmgWtf8::from_bytes_unchecked(b"\xa9\xa8\x83\xf1\xa9\xa8"),
        OmgWtf8::from_bytes_unchecked(b"\x93\xa8\x83\xf1\xa9\xa3"),
    );
    assert_eq!(
        OmgWtf8::from_bytes_unchecked(b"\xa9\xa8\x83a\xf1\xa9\xa8"),
        OmgWtf8::from_bytes_unchecked(b"\x93\xa8\x83a\xf1\xa9\xa3"),
    );
    assert_ne!(
        OmgWtf8::from_bytes_unchecked(b"\xa9\xa8\x83a\xf1\xa9\xa8"),
        OmgWtf8::from_bytes_unchecked(b"\x93\xa8\x83A\xf1\xa9\xa3"),
    );
    assert_eq!(
        OmgWtf8::from_bytes_unchecked(b"\xed\xb8\x83"),
        OmgWtf8::from_bytes_unchecked(b"\x93\xa8\x83"),
    );
    assert_ne!(
        OmgWtf8::from_bytes_unchecked(b"\xed\xb8\x83"),
        OmgWtf8::from_bytes_unchecked(b"\x93\xa9\x83"),
    );
    assert_eq!(
        OmgWtf8::from_bytes_unchecked(b"\xed\xb8\x83a"),
        OmgWtf8::from_bytes_unchecked(b"\x93\xa8\x83a"),
    );
    assert_ne!(
        OmgWtf8::from_bytes_unchecked(b"\xed\xb8\x83a"),
        OmgWtf8::from_bytes_unchecked(b"\x93\xa9\x83a"),
    );
    assert_ne!(
        OmgWtf8::from_bytes_unchecked(b"\xed\xb8\x83a"),
        OmgWtf8::from_bytes_unchecked(b"\x93\xa8\x83A"),
    );
    assert_eq!(
        OmgWtf8::from_bytes_unchecked(b"\xed\xb8\x83ab"),
        OmgWtf8::from_bytes_unchecked(b"\x93\xa8\x83ab"),
    );
    assert_ne!(
        OmgWtf8::from_bytes_unchecked(b"\xed\xb8\x83ab"),
        OmgWtf8::from_bytes_unchecked(b"\x93\xa9\x83ab"),
    );
    assert_ne!(
        OmgWtf8::from_bytes_unchecked(b"\xed\xb8\x83ab"),
        OmgWtf8::from_bytes_unchecked(b"\x93\xa8\x83AB"),
    );

    assert_eq!(
        OmgWtf8::from_bytes_unchecked(b"\xed\xa5\xa6"),
        OmgWtf8::from_bytes_unchecked(b"\xf1\xa9\xa3"),
    );
    assert_ne!(
        OmgWtf8::from_bytes_unchecked(b"\xed\xa5\xa6"),
        OmgWtf8::from_bytes_unchecked(b"\xf2\xa9\xa3"),
    );
    assert_eq!(
        OmgWtf8::from_bytes_unchecked(b"a\xed\xa5\xa6"),
        OmgWtf8::from_bytes_unchecked(b"a\xf1\xa9\xa3"),
    );
    assert_ne!(
        OmgWtf8::from_bytes_unchecked(b"a\xed\xa5\xa6"),
        OmgWtf8::from_bytes_unchecked(b"a\xf2\xa9\xa3"),
    );
    assert_ne!(
        OmgWtf8::from_bytes_unchecked(b"a\xed\xa5\xa6"),
        OmgWtf8::from_bytes_unchecked(b"A\xf1\xa9\xa3"),
    );
    assert_eq!(
        OmgWtf8::from_bytes_unchecked(b"ab\xed\xa5\xa6"),
        OmgWtf8::from_bytes_unchecked(b"ab\xf1\xa9\xa3"),
    );
    assert_ne!(
        OmgWtf8::from_bytes_unchecked(b"ab\xed\xa5\xa6"),
        OmgWtf8::from_bytes_unchecked(b"ab\xf2\xa9\xa3"),
    );
    assert_ne!(
        OmgWtf8::from_bytes_unchecked(b"ab\xed\xa5\xa6"),
        OmgWtf8::from_bytes_unchecked(b"AB\xf1\xa9\xa3"),
    );
}

fn ow8(b: &[u8]) -> OmgWtf8 {
    OmgWtf8::from_bytes_unchecked(b)
}

fn hash_of(s: &OmgWtf8) -> u64 {
    let mut h = DefaultHasher::new();
    s.hash_into(&mut h);
    h.finish()
}

#[test]
fn canonicalize_peels_both_ends() {
    let s = ow8(b"\x93\xa8\x83a\xf1\xa9\xa3");
    let (lo, mid, hi) = s.canonicalize();
    assert_eq!(lo, 0xb883);
    assert_eq!(mid, b"a");
    assert_eq!(hi, 0xa5a6);
}

#[test]
fn canonicalize_short_strings_are_kept_whole() {
    let s = ow8(b"ab");
    assert_eq!(s.canonicalize(), (0, &b"ab"[..], 0));
    let e = ow8(b"");
    assert_eq!(e.canonicalize(), (0, &b""[..], 0));
}

#[test]
fn canonicalize_three_bytes_by_polarity() {
    assert_eq!(ow8(b"\xed\xa5\xa6").canonicalize(), (0, &b""[..], 0xa5a6));
    assert_eq!(ow8(b"\xed\xb8\x83").canonicalize(), (0xb883, &b""[..], 0));
    assert_eq!(ow8(b"abc").canonicalize(), (0, &b"abc"[..], 0));
}

#[test]
fn canonicalize_four_bytes_peels_low_first() {
    // a leading high surrogate is not peeled, a trailing one is
    assert_eq!(ow8(b"\xed\xa5\xa6a").canonicalize(), (0, &b"\xed\xa5\xa6a"[..], 0));
    assert_eq!(ow8(b"a\xed\xa5\xa6").canonicalize(), (0, &b"a"[..], 0xa5a6));
}

#[test]
fn equal_strings_hash_alike() {
    let a = ow8(b"\xed\xb8\x83\xed\xa5\xa6");
    let b = ow8(b"\x93\xa8\x83\xf1\xa9\xa3");
    assert_eq!(a, b);
    assert_eq!(hash_of(&a), hash_of(&b));
}

#[test]
fn order_follows_canonical_triples() {
    let a = ow8(b"abc");
    let b = ow8(b"abd");
    assert_eq!(a.cmp(&b), Ordering::Less);
    assert_eq!(b.cmp(&a), Ordering::Greater);
    assert_eq!(a.partial_cmp(&b), Some(Ordering::Less));
    assert!(a < b);
    // a prefix comes first
    assert_eq!(ow8(b"ab").cmp(&ow8(b"abc")), Ordering::Less);
    // equal under canonicalization compares Equal
    let c = ow8(b"\xed\xb8\x83a");
    let d = ow8(b"\x93\xa8\x83a");
    assert_eq!(c.cmp(&d), Ordering::Equal);
    // the low tag is compared first
    assert_eq!(ow8(b"\xed\xb8\x83a").cmp(&ow8(b"b")), Ordering::Greater);
}

#[test]
fn equal_exactly_when_code_units_are() {
    let forms: [&[u8]; 5] = [
        b"\xed\xb8\x83\xed\xa5\xa6",
        b"\xed\xb8\x83\xf1\xa9\xa8",
        b"\xa9\xa8\x83\xed\xa5\xa6",
        b"\xa9\xa8\x83\xf1\xa9\xa8",
        b"\x93\xa8\x83\xf1\xa9\xa3",
    ];
    for a in forms.iter() {
        for b in forms.iter() {
            let (x, y) = (ow8(a), ow8(b));
            assert_eq!(x, y);
            assert_eq!(x.to_wide(), y.to_wide());
        }
    }
    let x = ow8(b"\xed\xb8\x83a");
    let y = ow8(b"\x93\xa9\x83a");
    assert_ne!(x, y);
    assert_ne!(x.to_wide(), y.to_wide());
}

#[test]
fn equal_forms_are_one_set_member() {
    let mut set = HashSet::new();
    set.insert(ow8(b"\xed\xb8\x83a\xed\xa5\xa6"));
    set.insert(ow8(b"\x93\xa8\x83a\xf1\xa9\xa3"));
    set.insert(ow8(b"\xa9\xa8\x83a\xf1\xa9\xa8"));
    assert_eq!(set.len(), 1);
    set.insert(ow8(b"\xed\xb8\x83b\xed\xa5\xa6"));
    assert_eq!(set.len(), 2);
}
