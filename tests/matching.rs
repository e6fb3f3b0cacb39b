use omgwtf8::pattern::SearchError;
use omgwtf8::string::OmgWtf8;

fn pieces(hay: &OmgWtf8, needle: &OmgWtf8) -> Vec<OmgWtf8> {
    let mut split = hay.split(needle).unwrap();
    let mut out = Vec::new();
    while let Some(p) = split.next() {
        out.push(p);
    }
    out
}

#[test]
fn test_ow8_pattern_api() {
    let x = OmgWtf8::from_str("😀A😑B😢😳🙄");
    let y = OmgWtf8::from_wide(&[0xd83d]);
    assert_eq!(
        pieces(&x, &y),
        vec![
            OmgWtf8::from_str(""),
            OmgWtf8::from_wide(&[0xde00, 0x41]),
            OmgWtf8::from_wide(&[0xde11, 0x42]),
            OmgWtf8::from_wide(&[0xde22]),
            OmgWtf8::from_wide(&[0xde33]),
            OmgWtf8::from_wide(&[0xde44]),
        ]
    );

    assert_eq!(x.find(&OmgWtf8::from_wide(&[0xde00])).unwrap(), Some(2));
    assert_eq!(x.find(&OmgWtf8::from_str("B")).unwrap(), Some(9));
    assert_eq!(x.find(&OmgWtf8::from_wide(&[0xde55])).unwrap(), None);
}

#[test]
fn split_pieces_after_the_first_start_with_bare_low_groups() {
    let x = OmgWtf8::from_str("😀A😑B😢😳🙄");
    let y = OmgWtf8::from_wide(&[0xd83d]);
    let ps = pieces(&x, &y);
    assert_eq!(ps.len(), 6);
    assert!(ps[0].is_empty());
    for p in &ps[1..] {
        let b = p.as_bytes();
        assert!(b.len() >= 3);
        assert!((0x80..=0xbf).contains(&b[0]));
    }
}

#[test]
fn split_keeps_trailing_empty_piece() {
    let x = OmgWtf8::from_str("a,b,");
    let ps = pieces(&x, &OmgWtf8::from_str(","));
    assert_eq!(
        ps,
        vec![OmgWtf8::from_str("a"), OmgWtf8::from_str("b"), OmgWtf8::from_str("")]
    );
    let ps = pieces(&OmgWtf8::from_str("a,,b"), &OmgWtf8::from_str(","));
    assert_eq!(
        ps,
        vec![OmgWtf8::from_str("a"), OmgWtf8::from_str(""), OmgWtf8::from_str("b")]
    );
}

#[test]
fn split_without_match_gives_whole_string() {
    let x = OmgWtf8::from_str("abc");
    let mut split = x.split(&OmgWtf8::from_str("z")).unwrap();
    assert_eq!(split.next(), Some(OmgWtf8::from_str("abc")));
    assert_eq!(split.next(), None);
    assert_eq!(split.next(), None);
}

#[test]
fn contains_and_find_match_every_byte_form() {
    let x = OmgWtf8::from_str("😱😱😱");
    assert!(x.contains(&OmgWtf8::from_wide(&[0xde31, 0xd83d])).unwrap());
    assert!(!x.contains(&OmgWtf8::from_str("a")).unwrap());
    assert_eq!(x.find(&OmgWtf8::from_wide(&[0xde31, 0xd83d])).unwrap(), Some(2));
    assert_eq!(x.find(&OmgWtf8::from_str("😱")).unwrap(), Some(0));
    // a needle in canonical form finds the same place as its split form
    let canon = OmgWtf8::from_bytes_unchecked(b"\xed\xb8\xb1");
    assert_eq!(x.find(&canon).unwrap(), Some(2));
}

#[test]
fn oversized_needle_is_rejected() {
    let needle = OmgWtf8::from_str(&"a".repeat(2_000_000));
    let hay = OmgWtf8::from_str("a");
    assert_eq!(hay.find(&needle).unwrap_err(), SearchError::PatternRejected);
    assert!(hay.split(&needle).is_err());
}
