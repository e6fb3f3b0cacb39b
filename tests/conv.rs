use omgwtf8::string::OmgWtf8;

#[test]
fn test_to_str() {
    let s = OmgWtf8::from_str("😁😃😅");
    assert_eq!(s.to_str(), Some("😁😃😅"));
    assert_eq!(s.slice_from(4).to_str(), Some("😃😅"));
    assert_eq!(s.slice_from(2).to_str(), None);
    assert_eq!(s.slice_to(10).to_str(), None);
}

#[test]
fn test_from_wide() {
    assert_eq!(OmgWtf8::from_wide(&[0x41]).as_bytes(), b"\x41");
    assert_eq!(OmgWtf8::from_wide(&[0x500]).as_bytes(), b"\xd4\x80");
    assert_eq!(OmgWtf8::from_wide(&[0x91aa]).as_bytes(), b"\xe9\x86\xaa");
    assert_eq!(OmgWtf8::from_wide(&[0xffff]).as_bytes(), b"\xef\xbf\xbf");
    assert_eq!(OmgWtf8::from_wide(&[0xd888]).as_bytes(), b"\xed\xa2\x88");
    assert_eq!(OmgWtf8::from_wide(&[0xdddd]).as_bytes(), b"\xed\xb7\x9d");
    assert_eq!(
        OmgWtf8::from_wide(&[1, 0xd888, 2]).as_bytes(),
        b"\x01\xed\xa2\x88\x02"
    );
    assert_eq!(
        OmgWtf8::from_wide(&[1, 0xdddd, 2]).as_bytes(),
        b"\x01\xed\xb7\x9d\x02"
    );
    assert_eq!(
        OmgWtf8::from_wide(&[0xd888, 0xd888, 0xd888]).as_bytes(),
        b"\xed\xa2\x88\xed\xa2\x88\xed\xa2\x88",
    );
    assert_eq!(
        OmgWtf8::from_wide(&[0xd888, 0xdddd]).as_bytes(), // U+321DD
        b"\xf0\xb2\x87\x9d",
    );
    assert_eq!(
        OmgWtf8::from_wide(&[0xdddd, 0xd888, 0xdddd, 0xd888]).as_bytes(),
        b"\xed\xb7\x9d\xf0\xb2\x87\x9d\xed\xa2\x88",
    );
    assert_eq!(
        OmgWtf8::from_wide(&[0xd888, 0xd888, 0xdddd, 0xdddd]).as_bytes(),
        b"\xed\xa2\x88\xf0\xb2\x87\x9d\xed\xb7\x9d",
    );
}

#[test]
fn test_encode_wide() {
    assert_eq!(OmgWtf8::from_str("abc").to_wide(), vec![0x61, 0x62, 0x63]);
    assert_eq!(
        OmgWtf8::from_str("測試文字").to_wide(),
        vec![0x6e2c, 0x8a66, 0x6587, 0x5b57],
    );
    assert_eq!(
        OmgWtf8::from_str("😊😚🙃").to_wide(),
        vec![0xd83d, 0xde0a, 0xd83d, 0xde1a, 0xd83d, 0xde43],
    );
    assert_eq!(
        OmgWtf8::from_bytes_unchecked(b"\xed\xa2\x88\xed\xa2\x88\xed\xa2\x88").to_wide(),
        vec![0xd888, 0xd888, 0xd888],
    );
    assert_eq!(
        OmgWtf8::from_bytes_unchecked(b"\xed\xb7\x9d\xf0\xb2\x87\x9d\xed\xa2\x88").to_wide(),
        vec![0xdddd, 0xd888, 0xdddd, 0xd888],
    );
    assert_eq!(
        OmgWtf8::from_bytes_unchecked(b"\xb2\x87\x9d\xf0\xb2\x87\x9d\xf0\xb2\x87").to_wide(),
        vec![0xdddd, 0xd888, 0xdddd, 0xd888],
    );
}

#[test]
fn test_boxing_should_canonicalize() {
    assert_eq!(OmgWtf8::from_str("abc").canonical_copy().as_bytes(), b"abc");
    assert_eq!(
        OmgWtf8::from_str("測試😊").canonical_copy().as_bytes(),
        b"\xe6\xb8\xac\xe8\xa9\xa6\xf0\x9f\x98\x8a",
    );
    assert_eq!(
        OmgWtf8::from_bytes_unchecked(b"\xb2\x87\x9d\xf0\xb2\x87\x9d\xf0\xb2\x87")
            .canonical_copy()
            .as_bytes(),
        b"\xed\xb7\x9d\xf0\xb2\x87\x9d\xed\xa2\x88",
    );
}

#[test]
fn encode_wide_yields_one_unit_per_call() {
    let s = OmgWtf8::from_str("a😀");
    let mut it = s.encode_wide();
    assert_eq!(it.next(), Some(0x61));
    assert_eq!(it.next(), Some(0xd83d));
    assert_eq!(it.next(), Some(0xde00));
    assert_eq!(it.next(), None);
    assert_eq!(it.next(), None);
}

#[test]
fn encode_wide_of_two_byte_and_bare_groups() {
    // a 2-byte sequence, then a 4-byte head cut short
    let s = OmgWtf8::from_bytes_unchecked(b"\xd4\x80\xf0\x9f\x98");
    assert_eq!(s.to_wide(), vec![0x500, 0xd83d]);
}

#[test]
fn round_trip_through_wide() {
    let w: Vec<u16> = vec![0x41, 0xd800, 0xdc00, 0xdfff, 0xdbff, 0x7ff, 0x800, 0xffff, 0xd83d];
    assert_eq!(OmgWtf8::from_wide(&w).to_wide(), w);
}

#[test]
fn utf8_text_is_transparent() {
    let s = OmgWtf8::from_str("héllo 測試 😀");
    assert_eq!(s.as_bytes(), "héllo 測試 😀".as_bytes());
    assert_eq!(s.to_str(), Some("héllo 測試 😀"));
}

#[test]
fn canonical_copy_twice_is_stable() {
    let s = OmgWtf8::from_bytes_unchecked(b"\x9f\x98\x80a\xf0\x9f\x98");
    let c1 = s.canonical_copy();
    let c2 = c1.canonical_copy();
    assert_eq!(c1.as_bytes(), b"\xed\xb8\x80a\xed\xa0\xbd");
    assert_eq!(c2.as_bytes(), c1.as_bytes());
    assert_eq!(c1, s);
}

#[test]
fn empty_string_conversions() {
    let e = OmgWtf8::from_wide(&[]);
    assert!(e.is_empty());
    assert_eq!(e.len(), 0);
    assert_eq!(e.to_wide(), Vec::<u16>::new());
    assert_eq!(e.to_str(), Some(""));
}
