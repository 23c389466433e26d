use yamlsplit::encoding::Encoding;

#[test]
fn detects_utf16be_bom() {
    assert_eq!(Encoding::detect(&[0xFE, 0xFF]), Encoding::UTF16BE);
    assert_eq!(Encoding::detect(&[0xFE, 0xFF, 0x00, 0x41]), Encoding::UTF16BE);
}

#[test]
fn detects_utf16le_bom() {
    assert_eq!(Encoding::detect(&[0xFF, 0xFE]), Encoding::UTF16LE);
    assert_eq!(Encoding::detect(&[0xFF, 0xFE, 0x41, 0x00]), Encoding::UTF16LE);
}

#[test]
fn detects_utf32be_bom() {
    assert_eq!(Encoding::detect(&[0x00, 0x00, 0xFE, 0xFF]), Encoding::UTF32BE);
}

#[test]
fn detects_utf32le_bom() {
    assert_eq!(Encoding::detect(&[0xFF, 0xFE, 0x00, 0x00]), Encoding::UTF32LE);
}

#[test]
fn detects_utf8_bom_as_utf8() {
    assert_eq!(Encoding::detect(&[0xEF, 0xBB, 0xBF]), Encoding::UTF8);
    assert_eq!(Encoding::detect(&[0xEF, 0xBB, 0xBF, b'a']), Encoding::UTF8);
}

#[test]
fn detects_ascii_as_utf8() {
    assert_eq!(Encoding::detect(b"key: value"), Encoding::UTF8);
    assert_eq!(Encoding::detect(b"a"), Encoding::UTF8);
    assert_eq!(Encoding::detect(&[]), Encoding::UTF8);
}

#[test]
fn detects_by_null_byte_heuristic() {
    // an ASCII character in a wide encoding betrays itself by null bytes
    assert_eq!(Encoding::detect(&[0x00, 0x41]), Encoding::UTF16BE);
    assert_eq!(Encoding::detect(&[0x41, 0x00]), Encoding::UTF16LE);
    assert_eq!(Encoding::detect(&[0x00, 0x00, 0x00, 0x41]), Encoding::UTF32BE);
    assert_eq!(Encoding::detect(&[0x41, 0x00, 0x00, 0x00]), Encoding::UTF32LE);
    // two-byte prefixes with a null keep the 16-bit reading
    assert_eq!(Encoding::detect(&[0x00, 0x41, 0x00, 0x42]), Encoding::UTF16BE);
    assert_eq!(Encoding::detect(&[0x41, 0x00, 0x42, 0x00]), Encoding::UTF16LE);
}

#[test]
fn short_prefix_degrades_gracefully() {
    // a single byte matches neither the four- nor the two-byte rules
    assert_eq!(Encoding::detect(&[0x00]), Encoding::UTF8);
    assert_eq!(Encoding::detect(&[0xFE]), Encoding::UTF8);
}
