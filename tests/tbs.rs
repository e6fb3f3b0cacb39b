use omgwtf8::tbs::ThreeByteSeq;

fn canonicalize(a: u32) -> u16 {
    ThreeByteSeq(a).canonicalize()
}

#[test]
fn test_3bs_canonicalize() {
    assert_eq!(canonicalize(0x303030), 0); // '000'
    assert_eq!(canonicalize(0xed9fbf), 0); // U+D7FF
    assert_eq!(canonicalize(0xee8080), 0); // U+E000
    assert_eq!(canonicalize(0xeda080), 0xa080); // U+D800
    assert_eq!(canonicalize(0xedafbf), 0xafbf); // U+DBFF
    assert_eq!(canonicalize(0xedb080), 0xb080); // U+DC00
    assert_eq!(canonicalize(0xedbfbf), 0xbfbf); // U+DFFF
    assert_eq!(canonicalize(0xf09080), 0xa080); // U+10000, high
    assert_eq!(canonicalize(0x908080), 0xb080); // U+10000, low
    assert_eq!(canonicalize(0xf48fbf), 0xafbf); // U+10FFFF, high
    assert_eq!(canonicalize(0x8fbfbf), 0xbfbf); // U+10FFFF, low

    // U+69A03 = D966 DE03 (ed a5 a6 ed b8 83) = f1 a9 a8 83
    assert_eq!(canonicalize(0xeda5a6), 0xa5a6);
    assert_eq!(canonicalize(0xedb883), 0xb883);
    assert_eq!(canonicalize(0xf1a9a8), 0xa5a6);
    assert_eq!(canonicalize(0xa9a883), 0xb883);
}

#[test]
fn three_byte_seq_reads_big_endian() {
    assert_eq!(ThreeByteSeq::new(&[0xf0, 0x9f, 0x98, 0x80]).0, 0xf09f98);
}

#[test]
fn code_unit_of_each_window_kind() {
    // head of U+1F600 (F0 9F 98 80) is D83D, its tail DE00
    assert_eq!(ThreeByteSeq(0xf09f98).as_code_unit(), 0xd83d);
    assert_eq!(ThreeByteSeq(0x9f9880).as_code_unit(), 0xde00);
    // a plain 3-byte sequence and a canonical surrogate
    assert_eq!(ThreeByteSeq(0xe6b8ac).as_code_unit(), 0x6e2c);
    assert_eq!(ThreeByteSeq(0xeda288).as_code_unit(), 0xd888);
}
