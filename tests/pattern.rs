use omgwtf8::pattern::{append_regex_pattern_from_surrogate, OmgWtf8Searcher};
use omgwtf8::string::OmgWtf8;

fn searcher<'h>(needle: &OmgWtf8, haystack: &'h OmgWtf8) -> OmgWtf8Searcher<'h> {
    OmgWtf8Searcher::new(needle, haystack).unwrap()
}

#[test]
fn test_ow8_searcher() {
    let haystack = OmgWtf8::from_str("abcdeabcd");
    let mut s = searcher(&OmgWtf8::from_str("a"), &haystack);
    assert_eq!(s.next_match(), Some((0, 1)));
    assert_eq!(s.next_match(), Some((5, 6)));
    assert_eq!(s.next_match(), None);

    let haystack = OmgWtf8::from_str("Áa🁀bÁꁁfg😁각กᘀ각aÁ각ꁁก😁a");
    let mut s = searcher(&OmgWtf8::from_str("x"), &haystack);
    assert_eq!(s.next_match(), None);

    let mut s = searcher(&OmgWtf8::from_str("Á"), &haystack);
    assert_eq!(s.next_match(), Some((0, 2)));
    assert_eq!(s.next_match(), Some((8, 10)));
    assert_eq!(s.next_match(), Some((32, 34)));
    assert_eq!(s.next_match(), None);

    let mut s = searcher(&OmgWtf8::from_str("ก"), &haystack);
    assert_eq!(s.next_match(), Some((22, 25)));
    assert_eq!(s.next_match(), Some((40, 43)));
    assert_eq!(s.next_match(), None);

    let mut s = searcher(&OmgWtf8::from_str("😁"), &haystack);
    assert_eq!(s.next_match(), Some((15, 19)));
    assert_eq!(s.next_match(), Some((43, 47)));
    assert_eq!(s.next_match(), None);

    let mut s = searcher(&OmgWtf8::from_str("ꁁ"), &haystack);
    assert_eq!(s.next_match(), Some((10, 13)));
    assert_eq!(s.next_match(), Some((37, 40)));
    assert_eq!(s.next_match(), None);

    // Now some OMG-WTF-8-specific tests
    let haystack = OmgWtf8::from_str("😱😱😱");

    let pattern = OmgWtf8::from_wide(&[0xd83d]);
    let mut s = searcher(&pattern, &haystack);
    assert_eq!(s.next_match(), Some((0, 3)));
    assert_eq!(s.next_match(), Some((4, 7)));
    assert_eq!(s.next_match(), Some((8, 11)));
    assert_eq!(s.next_match(), None);

    let pattern = OmgWtf8::from_wide(&[0xde31]);
    let mut s = searcher(&pattern, &haystack);
    assert_eq!(s.next_match(), Some((1, 4)));
    assert_eq!(s.next_match(), Some((5, 8)));
    assert_eq!(s.next_match(), Some((9, 12)));
    assert_eq!(s.next_match(), None);

    let pattern = OmgWtf8::from_wide(&[0xde31, 0xd83d]);
    let mut s = searcher(&pattern, &haystack);
    assert_eq!(s.next_match(), Some((1, 7)));
    assert_eq!(s.next_match(), Some((5, 11)));
    assert_eq!(s.next_match(), None);

    let hs = haystack.slice_from(2);
    let mut s = searcher(&pattern, &hs);
    assert_eq!(s.next_match(), Some((0, 6)));
    assert_eq!(s.next_match(), Some((4, 10)));
    assert_eq!(s.next_match(), None);

    let hs = haystack.slice_to(10);
    let mut s = searcher(&pattern, &hs);
    assert_eq!(s.next_match(), Some((1, 7)));
    assert_eq!(s.next_match(), Some((5, 11)));
    assert_eq!(s.next_match(), None);

    let haystack = OmgWtf8::from_wide(&[0xd83d, 0xd83d, 0xd83d, 0xde31, 0xde31, 0xde31]);

    let pattern = OmgWtf8::from_wide(&[0xd83d]);
    let mut s = searcher(&pattern, &haystack);
    assert_eq!(s.next_match(), Some((0, 3)));
    assert_eq!(s.next_match(), Some((3, 6)));
    assert_eq!(s.next_match(), Some((6, 9)));
    assert_eq!(s.next_match(), None);

    let pattern = OmgWtf8::from_wide(&[0xde31]);
    let mut s = searcher(&pattern, &haystack);
    assert_eq!(s.next_match(), Some((7, 10)));
    assert_eq!(s.next_match(), Some((10, 13)));
    assert_eq!(s.next_match(), Some((13, 16)));
    assert_eq!(s.next_match(), None);
}

#[test]
fn low_tag_pattern_text() {
    let mut w = String::new();
    append_regex_pattern_from_surrogate(&mut w, 0xb883);
    assert_eq!(w, r"(?:\xed\xb8|[\x80-\xbf][\x88\x98\xa8\xb8])\x83");
}

#[test]
fn high_tag_pattern_text() {
    // D83D: canonical ED A0 BD, or the head F0 9F 90..9F of U+1F400..U+1F7FF
    let mut w = String::new();
    append_regex_pattern_from_surrogate(&mut w, 0xa0bd);
    assert_eq!(w, r"(?:\xed\xa0\xbd|\xf0\x9f[\x90-\x9f])");
}

#[test]
fn needle_pattern_escapes_middle_bytes() {
    assert_eq!(OmgWtf8::from_str("a\u{e9}").regex_pattern(), r"\x61\xc3\xa9");
    assert_eq!(OmgWtf8::from_str("").regex_pattern(), "");
}

#[test]
fn searcher_keeps_its_haystack() {
    let haystack = OmgWtf8::from_str("abc");
    let s = searcher(&OmgWtf8::from_str("b"), &haystack);
    assert_eq!(s.haystack().as_bytes(), b"abc");
}

#[test]
fn cursor_conversions_at_split_points() {
    let s = OmgWtf8::from_str("😀a");
    assert_eq!(s.start_to_end_cursor(1), 3);
    assert_eq!(s.start_to_end_cursor(0), 0);
    assert_eq!(s.end_to_start_cursor(3), 1);
    assert_eq!(s.end_to_start_cursor(4), 4);
    assert_eq!(s.start_cursor_to_offset(1), 2);
    assert_eq!(s.end_cursor_to_offset(3), 2);
    assert_eq!(s.end_cursor_to_offset(5), 5);
}
