use omgwtf8::slice::IndexType;
use omgwtf8::string::OmgWtf8;

#[test]
fn test_ow8_len() {
    let s = OmgWtf8::from_str("foo");
    assert_eq!(s.len(), 3);
    assert_eq!(s.as_bytes(), b"foo");
}

#[test]
fn test_ow8_slices_str() {
    let s = OmgWtf8::from_str("foo");
    assert_eq!(s.as_bytes(), b"foo");
    assert_eq!(s.slice_from(1).as_bytes(), b"oo");
    assert_eq!(s.slice_to(2).as_bytes(), b"fo");
    assert_eq!(s.slice(1, 2).as_bytes(), b"o");
}

#[test]
fn test_ow8_slices_utf8() {
    let s = OmgWtf8::from_str("測試文字");
    assert_eq!(
        s.as_bytes(),
        b"\xe6\xb8\xac\xe8\xa9\xa6\xe6\x96\x87\xe5\xad\x97"
    );
    assert_eq!(s.slice_from(3).as_bytes(), b"\xe8\xa9\xa6\xe6\x96\x87\xe5\xad\x97");
    assert_eq!(s.slice_to(6).as_bytes(), b"\xe6\xb8\xac\xe8\xa9\xa6");
    assert_eq!(s.slice(3, 9).as_bytes(), b"\xe8\xa9\xa6\xe6\x96\x87");
}

#[test]
fn test_ow8_slices_valid() {
    let s = OmgWtf8::from_bytes_unchecked(b"\x90\x81\x81\xed\xb1\x81\xed\xa0\x80\xf0\x90\x81");
    assert_eq!(
        s.as_bytes(),
        b"\x90\x81\x81\xed\xb1\x81\xed\xa0\x80\xf0\x90\x81"
    );
    assert_eq!(s.slice_from(3).as_bytes(), b"\xed\xb1\x81\xed\xa0\x80\xf0\x90\x81");
    assert_eq!(s.slice_to(6).as_bytes(), b"\x90\x81\x81\xed\xb1\x81");
    assert_eq!(s.slice(3, 9).as_bytes(), b"\xed\xb1\x81\xed\xa0\x80");
}

#[test]
fn test_ow8_slices_split() {
    let s = OmgWtf8::from_str("😀😂😄");
    assert_eq!(
        s.as_bytes(),
        b"\xf0\x9f\x98\x80\xf0\x9f\x98\x82\xf0\x9f\x98\x84"
    );
    assert_eq!(
        s.slice_from(2).as_bytes(),
        b"\x9f\x98\x80\xf0\x9f\x98\x82\xf0\x9f\x98\x84"
    );
    assert_eq!(s.slice_from(4).as_bytes(), b"\xf0\x9f\x98\x82\xf0\x9f\x98\x84");
    assert_eq!(
        s.slice_to(10).as_bytes(),
        b"\xf0\x9f\x98\x80\xf0\x9f\x98\x82\xf0\x9f\x98"
    );
    assert_eq!(s.slice_to(8).as_bytes(), b"\xf0\x9f\x98\x80\xf0\x9f\x98\x82");
    assert_eq!(
        s.slice(2, 10).as_bytes(),
        b"\x9f\x98\x80\xf0\x9f\x98\x82\xf0\x9f\x98"
    );
    assert_eq!(s.slice(4, 8).as_bytes(), b"\xf0\x9f\x98\x82");
    assert_eq!(s.slice(2, 4).as_bytes(), b"\x9f\x98\x80");
    assert_eq!(s.slice(2, 2).as_bytes(), b"");
    assert_eq!(s.slice(0, 2).as_bytes(), b"\xf0\x9f\x98");
    assert_eq!(s.slice(4, 4).as_bytes(), b"");
}

#[test]
fn split_emoji_slice_decodes_to_inner_units() {
    let s = OmgWtf8::from_str("😀😂😄");
    assert_eq!(s.slice(2, 10).to_wide(), vec![0xde00, 0xd83d, 0xde02, 0xd83d]);
}

#[test]
fn classify_every_kind() {
    let s = OmgWtf8::from_bytes_unchecked(b"a\xf0\x9f\x98\x80\xc3\xa9");
    assert_eq!(s.classify_index(0), IndexType::CharBoundary);
    assert_eq!(s.classify_index(1), IndexType::CharBoundary);
    assert_eq!(s.classify_index(2), IndexType::FourByteSeq1);
    assert_eq!(s.classify_index(3), IndexType::FourByteSeq2);
    assert_eq!(s.classify_index(4), IndexType::FourByteSeq3);
    assert_eq!(s.classify_index(5), IndexType::CharBoundary);
    assert_eq!(s.classify_index(6), IndexType::Interior);
    assert_eq!(s.classify_index(7), IndexType::CharBoundary);
    assert_eq!(s.classify_index(8), IndexType::OutOfBounds);
}

#[test]
fn classify_inside_bare_groups() {
    let s = OmgWtf8::from_bytes_unchecked(b"\x90\x80\x80\x7e");
    assert_eq!(s.classify_index(1), IndexType::Interior);
    assert_eq!(s.classify_index(2), IndexType::Interior);
    let t = OmgWtf8::from_bytes_unchecked(b"\x7e\xf0\x90\x80");
    assert_eq!(t.classify_index(2), IndexType::Interior);
    assert_eq!(t.classify_index(3), IndexType::Interior);
}

#[test]
fn empty_slice_of_equal_bounds() {
    let s = OmgWtf8::from_str("12345");
    assert!(s.slice(3, 3).is_empty());
}
