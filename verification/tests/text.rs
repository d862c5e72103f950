use cnc_remedy::text::decode_bytes;

#[test]
fn utf8_passthrough() {
    assert_eq!(decode_bytes(b"N10 G0 X0\n"), "N10 G0 X0\n");
}

#[test]
fn utf8_bom_stripped() {
    let mut bytes = vec![0xEF, 0xBB, 0xBF];
    bytes.extend_from_slice(b"O0001(NAME)");
    assert_eq!(decode_bytes(&bytes), "O0001(NAME)");
}

#[test]
fn cp1251_cyrillic_decoded() {
    let bytes = b"T1 M6(\xd4\xd0\xc5\xc7\xc0 D16)";
    assert_eq!(decode_bytes(bytes), "T1 M6(ФРЕЗА D16)");
}

#[test]
fn utf16le_bom_decoded() {
    let mut bytes = vec![0xFF, 0xFE];
    for u in "T1 M6(DRILL)".encode_utf16() {
        bytes.extend_from_slice(&u.to_le_bytes());
    }
    assert_eq!(decode_bytes(&bytes), "T1 M6(DRILL)");
}

#[test]
fn utf16be_bom_decoded() {
    let mut bytes = vec![0xFE, 0xFF];
    for u in "ФРЕЗА".encode_utf16() {
        bytes.extend_from_slice(&u.to_be_bytes());
    }
    assert_eq!(decode_bytes(&bytes), "ФРЕЗА");
}

#[test]
fn utf8_cyrillic_is_kept() {
    assert_eq!(decode_bytes("МОЯ ДЕТАЛЬ".as_bytes()), "МОЯ ДЕТАЛЬ");
}

#[test]
fn utf16_text_with_surrogate_pairs_round_trips() {
    let text = "A😀 ФРЕЗА";
    let mut le = vec![0xFF, 0xFE];
    let mut be = vec![0xFE, 0xFF];
    for u in text.encode_utf16() {
        le.extend_from_slice(&u.to_le_bytes());
        be.extend_from_slice(&u.to_be_bytes());
    }
    assert_eq!(decode_bytes(&le), text);
    assert_eq!(decode_bytes(&be), text);
    let mut bom = vec![0xEF, 0xBB, 0xBF];
    bom.extend_from_slice(text.as_bytes());
    assert_eq!(decode_bytes(&bom), text);
    assert_eq!(decode_bytes(b""), "");
    assert_eq!(decode_bytes(&[0xFF, 0xFE]), "");
}
