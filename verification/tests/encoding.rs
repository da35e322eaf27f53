use zw_mcp_server::analysis::extract_all;
use zw_mcp_server::decode::{
    decode_direct_binary, decode_nary, decode_steganographr, decode_unicode_tags,
};
use zw_mcp_server::encode::{encode_330k, encode_binary, encode_steganographr, encode_tags};

const ZWSP: char = '\u{200B}';
const ZWNJ: char = '\u{200C}';
const WJ: char = '\u{2060}';

fn symbols(pattern: &str, alphabet: &[char]) -> String {
    pattern
        .chars()
        .filter(|c| c.is_ascii_digit())
        .map(|c| alphabet[c.to_digit(10).unwrap() as usize])
        .collect()
}

#[test]
fn binary_encoding_of_hi() {
    let encoded = encode_binary("HI", ZWSP, ZWNJ, 8);
    assert_eq!(encoded.chars().count(), 16);
    assert_eq!(encoded, symbols("01001000 01001001", &[ZWSP, ZWNJ]));
    let zw: Vec<char> = encoded.chars().collect();
    let decoded = decode_direct_binary(&zw, ZWSP, ZWNJ, 8).unwrap();
    assert_eq!(decoded.decoded, "HI");
}

#[test]
fn binary_encoding_with_seven_bits() {
    assert_eq!(encode_binary("A", 'o', 'I', 7), "IoooooI");
    assert_eq!(encode_binary("", ZWSP, ZWNJ, 8), "");
}

#[test]
fn binary_encoding_loses_high_bits() {
    // U+0141 is 1_0100_0001
    assert_eq!(encode_binary("\u{141}", '0', '1', 8), "01000001");
    assert_eq!(encode_binary("\u{100}", '0', '1', 8), "00000000");
    assert_eq!(encode_binary("\u{FF}", '0', '1', 4), "1111");
    assert_eq!(encode_binary("A", '0', '1', 0), "");
}

#[test]
fn binary_encoding_wider_than_the_code_point() {
    assert_eq!(encode_binary("A", '0', '1', 12), "000001000001");
    let wide = encode_binary("\u{10FFFF}", '0', '1', 40);
    // U+10FFFF is 1_0000_1111_1111_1111_1111
    assert_eq!(wide, format!("{}10000{}", "0".repeat(19), "1".repeat(16)));
    assert_eq!(wide.len(), 40);
}

#[test]
fn binary_round_trip() {
    for msg in ["A", "Hello, World!", "flag{z3r0_w1dth}", "tab\tand\nnewline", "~\u{7f}x y"] {
        for (zero, one) in [(ZWSP, ZWNJ), (ZWNJ, ZWSP), ('\u{200D}', '\u{FEFF}')] {
            let encoded = encode_binary(msg, zero, one, 8);
            let zw: Vec<char> = encoded.chars().collect();
            let r = decode_direct_binary(&zw, zero, one, 8).unwrap();
            assert_eq!(r.decoded, msg);
        }
    }
}

#[test]
fn steganographr_encoding_of_one_character() {
    let encoded = encode_steganographr("A", "");
    let mut expected = symbols("01000001", &[ZWSP, ZWNJ]);
    expected.push(WJ);
    assert_eq!(encoded, expected);
}

#[test]
fn steganographr_payload_goes_in_the_middle_of_the_cover() {
    let payload = encode_steganographr("A", "");
    assert_eq!(encode_steganographr("A", "ab"), format!("a{}b", payload));
    assert_eq!(encode_steganographr("A", "abc"), format!("a{}bc", payload));
    assert_eq!(encode_steganographr("A", "abcd"), format!("ab{}cd", payload));
    assert_eq!(encode_steganographr("A", "中文封面"), format!("中文{}封面", payload));
}

#[test]
fn cover_of_one_character_is_not_used() {
    let payload = encode_steganographr("A", "");
    assert_eq!(encode_steganographr("A", "a"), payload);
    // one character, whatever it takes in bytes
    assert_eq!(encode_steganographr("A", "é"), payload);
    assert_eq!(encode_steganographr("A", "中"), payload);
    let tags = encode_tags("A", "");
    assert_eq!(tags, "\u{E0041}");
    assert_eq!(encode_tags("A", "x"), tags);
    assert_eq!(encode_tags("A", "\u{E9}"), tags);
    assert_eq!(encode_tags("A", "中"), tags);
    let charset = ['\u{200C}', '\u{200D}', '\u{202C}', '\u{FEFF}'];
    let nary = encode_330k("A", "", &charset);
    assert_eq!(encode_330k("A", "é", &charset), nary);
    // two characters are enough
    assert_eq!(encode_tags("A", "é中"), format!("é{}中", tags));
}

#[test]
fn steganographr_round_trip() {
    for msg in ["A", "Hello, World!", "flag{steg}", "a b\tc"] {
        let r = decode_steganographr(&encode_steganographr(msg, "")).unwrap();
        assert_eq!(r.decoded, msg);
        let in_cover = decode_steganographr(&encode_steganographr(msg, "some cover text")).unwrap();
        assert_eq!(in_cover.decoded, msg);
    }
}

#[test]
fn steganographr_keeps_only_the_low_eight_bits() {
    // U+0141 is sent as 0x41
    let r = decode_steganographr(&encode_steganographr("\u{141}", "")).unwrap();
    assert_eq!(r.decoded, "A");
}

#[test]
fn tags_encoding_drops_what_is_not_ascii() {
    assert_eq!(encode_tags("Hé!", ""), "\u{E0048}\u{E0021}");
    assert_eq!(encode_tags("中文", ""), "");
    assert_eq!(encode_tags("\u{0}\u{7f}\u{80}", ""), "\u{E0000}\u{E007F}");
    assert_eq!(encode_tags("Hi", "cover"), "co\u{E0048}\u{E0069}ver");
}

#[test]
fn tags_round_trip() {
    for msg in ["A", "Hello, World!", "flag{tags}", "1 2\n3"] {
        let r = decode_unicode_tags(&encode_tags(msg, "")).unwrap();
        assert_eq!(r.decoded, msg);
        let in_cover = decode_unicode_tags(&encode_tags(msg, "cover")).unwrap();
        assert_eq!(in_cover.decoded, msg);
    }
}

#[test]
fn nary_encoding_in_base_four() {
    let charset = ['\u{200C}', '\u{200D}', '\u{202C}', '\u{FEFF}'];
    // 'A' = 65 = 1001 in base 4
    assert_eq!(encode_330k("A", "", &charset), symbols("00001001", &charset));
    assert_eq!(encode_330k("A", "xy", &charset), format!("x{}y", symbols("00001001", &charset)));
    // U+FFFF is eight threes
    assert_eq!(encode_330k("\u{FFFF}", "", &charset), symbols("33333333", &charset));
    // U+10000 needs nine digits and loses the first
    assert_eq!(encode_330k("\u{10000}", "", &charset), symbols("00000000", &charset));
    // U+1F600 = 1_1111_0110_0000_0000 -> 1 33 12 00 00 in base 4
    assert_eq!(encode_330k("\u{1F600}", "", &charset), symbols("33120000", &charset));
}

#[test]
fn nary_encoding_in_other_bases() {
    // base 3: eleven digits; 'A' = 65 = 2102 in base 3
    assert_eq!(encode_330k("A", "", &['a', 'b', 'c']), "aaaaaaacbac");
    // base 2: sixteen digits
    assert_eq!(encode_330k("A", "", &['0', '1']), "0000000001000001");
    // base 16: four digits
    let hex: Vec<char> = "0123456789ABCDEF".chars().collect();
    assert_eq!(encode_330k("中", "", &hex), "4E2D");
    assert_eq!(encode_330k("\u{1F600}", "", &hex), "F600");
}

#[test]
fn nary_round_trip() {
    let charset = ['\u{200C}', '\u{200D}', '\u{202C}', '\u{FEFF}'];
    for msg in ["Hello", "flag{330k}", "中文消息"] {
        let encoded = encode_330k(msg, "cover text", &charset);
        let results = decode_nary(&extract_all(&encoded), &charset);
        assert_eq!(results[0].decoded, msg);
    }
}
