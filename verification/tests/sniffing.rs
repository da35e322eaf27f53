use zw_mcp_server::sniff::decode_bytes;

fn utf16le(s: &str) -> Vec<u8> {
    s.encode_utf16().flat_map(|u| u.to_le_bytes()).collect()
}

fn utf16be(s: &str) -> Vec<u8> {
    s.encode_utf16().flat_map(|u| u.to_be_bytes()).collect()
}

fn lossy_utf16(units: &[u16]) -> String {
    char::decode_utf16(units.iter().copied()).map(|r| r.unwrap_or('\u{FFFD}')).collect()
}

#[test]
fn plain_utf8() {
    assert_eq!(decode_bytes("héllo 中文 \u{200B}".as_bytes()), "héllo 中文 \u{200B}");
    assert_eq!(decode_bytes(b""), "");
    assert_eq!(decode_bytes(b"ascii only"), "ascii only");
    // valid UTF-8 wins over UTF-16 even where the bytes could be both
    assert_eq!(decode_bytes(&[0x68, 0x00, 0x69, 0x00]), "h\u{0}i\u{0}");
}

#[test]
fn utf8_behind_a_byte_order_mark() {
    let mut raw = vec![0xEF, 0xBB, 0xBF];
    raw.extend_from_slice("abc\u{200C}".as_bytes());
    assert_eq!(decode_bytes(&raw), "abc\u{200C}");
    assert_eq!(decode_bytes(&[0xEF, 0xBB, 0xBF]), "");
}

#[test]
fn utf16_behind_a_byte_order_mark() {
    let text = "a\u{200B}中😀z";
    let mut le = vec![0xFF, 0xFE];
    le.extend(utf16le(text));
    assert_eq!(decode_bytes(&le), text);
    let mut be = vec![0xFE, 0xFF];
    be.extend(utf16be(text));
    assert_eq!(decode_bytes(&be), text);
    assert_eq!(decode_bytes(&[0xFF, 0xFE]), "");
    assert_eq!(decode_bytes(&[0xFE, 0xFF]), "");
}

#[test]
fn utf16_leaves_out_a_last_byte_without_partner() {
    assert_eq!(decode_bytes(&[0xFF, 0xFE, 0x41, 0x00, 0x42]), "A");
    assert_eq!(decode_bytes(&[0xFE, 0xFF, 0x00, 0x41, 0x00]), "A");
}

#[test]
fn utf16_replaces_surrogates_without_partner() {
    // high, then an ordinary unit
    assert_eq!(decode_bytes(&[0xFF, 0xFE, 0x3D, 0xD8, 0x41, 0x00]), "\u{FFFD}A");
    // low alone
    assert_eq!(decode_bytes(&[0xFF, 0xFE, 0x00, 0xDE, 0x41, 0x00]), "\u{FFFD}A");
    // high at the end
    assert_eq!(decode_bytes(&[0xFF, 0xFE, 0x41, 0x00, 0x3D, 0xD8]), "A\u{FFFD}");
    // high, high, low
    assert_eq!(
        decode_bytes(&[0xFF, 0xFE, 0x3D, 0xD8, 0x3D, 0xD8, 0x00, 0xDE]),
        "\u{FFFD}\u{1F600}"
    );
    // low, high
    assert_eq!(decode_bytes(&[0xFE, 0xFF, 0xDE, 0x00, 0xD8, 0x3D]), "\u{FFFD}\u{FFFD}");
}

#[test]
fn utf16_agrees_with_the_standard_library() {
    let mut seed: u32 = 0x1234_5678;
    for _ in 0..200 {
        let mut units: Vec<u16> = Vec::new();
        for _ in 0..12 {
            seed = seed.wrapping_mul(1_664_525).wrapping_add(1_013_904_223);
            let pick = (seed >> 16) as u16;
            // many surrogates, to meet pairs and strays
            units.push(if pick % 3 == 0 { 0xD800 + pick % 0x800 } else { pick });
        }
        let mut raw = vec![0xFF, 0xFE];
        raw.extend(units.iter().flat_map(|u| u.to_le_bytes()));
        assert_eq!(decode_bytes(&raw), lossy_utf16(&units));
    }
}

#[test]
fn utf16_without_a_mark_if_it_looks_like_text() {
    // not UTF-8: 0xE9 opens three bytes and 0x00 is no continuation
    let raw = utf16le("é中");
    assert_eq!(raw, vec![0xE9, 0x00, 0x2D, 0x4E]);
    assert_eq!(decode_bytes(&raw), "é中");
}

#[test]
fn latin1_takes_the_rest() {
    // odd length, not UTF-8
    assert_eq!(decode_bytes(&[0xE9, 0x41, 0x42]), "éAB");
    assert_eq!(decode_bytes(&[0xFF]), "ÿ");
    // even length, but as UTF-16 half of it is control characters
    assert_eq!(decode_bytes(&[0x01, 0x00, 0xFF, 0x00]), "\u{1}\u{0}ÿ\u{0}");
    // seven in ten is not enough: ten units, seven printable
    let mut raw: Vec<u8> = Vec::new();
    for _ in 0..7 {
        raw.extend_from_slice(&[0xE9, 0x00]);
    }
    for _ in 0..3 {
        raw.extend_from_slice(&[0x01, 0x00]);
    }
    let latin1: String = raw.iter().map(|b| *b as char).collect();
    assert_eq!(decode_bytes(&raw), latin1);
    // eight in ten is
    raw[14] = 0xE9;
    assert_eq!(decode_bytes(&raw), "éééééééé\u{1}\u{1}");
}

#[test]
fn a_utf8_mark_in_front_of_bytes_that_are_not_utf8() {
    // falls through to the guess of UTF-16
    assert_eq!(decode_bytes(&[0xEF, 0xBB, 0xBF, 0xFF]), "\u{BBEF}\u{FFBF}");
    // and to Latin-1 where the length is odd
    assert_eq!(decode_bytes(&[0xEF, 0xBB, 0xBF, 0xFF, 0x41]), "ï»¿ÿA");
}
