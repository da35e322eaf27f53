use zw_mcp_server::analysis::{extract_all, extract_segments};
use zw_mcp_server::decode::{
    decode_direct_binary, decode_nary, decode_segmented_binary, decode_steganographr,
    decode_unicode_tags,
};
use zw_mcp_server::radix::{accumulate, symbols_per_char};
use zw_mcp_server::score::Score;

const ZWSP: char = '\u{200B}';
const ZWNJ: char = '\u{200C}';
const ZWJ: char = '\u{200D}';
const WJ: char = '\u{2060}';

fn bits(pattern: &str, zero: char, one: char) -> Vec<char> {
    pattern
        .chars()
        .filter(|c| *c == '0' || *c == '1')
        .map(|c| if c == '0' { zero } else { one })
        .collect()
}

#[test]
fn unicode_tags_spell_ascii() {
    let r = decode_unicode_tags("cover\u{E0048}\u{E0069}\u{E0021} text").unwrap();
    assert_eq!(r.decoded, "Hi!");
    assert_eq!(r.method, "Unicode Tags (U+E0000-U+E007F)");
    // 30 * 3/3 + 30 * 2/3 + 3
    assert_eq!(r.score, Score { num: 90 + 60 + 9, den: 3 });
}

#[test]
fn unicode_tags_find_nothing_in_plain_text() {
    assert!(decode_unicode_tags("plain text").is_none());
    assert!(decode_unicode_tags("").is_none());
    assert!(decode_unicode_tags("a\u{200B}\u{200C}").is_none());
}

#[test]
fn unicode_tag_zero_is_dropped() {
    assert!(decode_unicode_tags("\u{E0000}").is_none());
    let r = decode_unicode_tags("\u{E0000}\u{E0041}\u{E0000}").unwrap();
    assert_eq!(r.decoded, "A");
}

#[test]
fn unicode_tags_refuse_unprintable_text() {
    // U+E0001 and U+E0002 stand for control characters
    assert!(decode_unicode_tags("\u{E0001}\u{E0002}").is_none());
    assert!(decode_unicode_tags("\u{E0001}\u{E0041}").is_none());
    assert!(decode_unicode_tags("\u{E0001}\u{E0041}\u{E0042}").is_some());
}

#[test]
fn steganographr_reads_groups_between_word_joiners() {
    let mut text = String::from("a");
    text.extend(bits("01001000", ZWSP, ZWNJ));
    text.push(WJ);
    text.extend(bits("01101001", ZWSP, ZWNJ));
    text.push(WJ);
    text.push('b');
    let r = decode_steganographr(&text).unwrap();
    assert_eq!(r.decoded, "Hi");
    assert_eq!(r.method, "Steganographr (WJ+ZWSP+ZWNJ)");
    assert_eq!(r.score, Score { num: 120, den: 2 });
}

#[test]
fn steganographr_last_group_needs_no_separator() {
    let mut text = String::new();
    text.extend(bits("1000001", ZWSP, ZWNJ));
    text.push(WJ);
    text.push(WJ);
    text.extend(bits("000000000000000000000000000000000001000010", ZWSP, ZWNJ));
    let r = decode_steganographr(&text).unwrap();
    assert_eq!(r.decoded, "AB");
}

#[test]
fn steganographr_skips_zero_and_invalid_groups() {
    let mut text = String::new();
    // zero
    text.extend(bits("0000", ZWSP, ZWNJ));
    text.push(WJ);
    // a surrogate, U+D800
    text.extend(bits("1101100000000000", ZWSP, ZWNJ));
    text.push(WJ);
    // more than 32 significant bits
    text.extend(bits("100000000000000000000000000000000", ZWSP, ZWNJ));
    text.push(WJ);
    // above U+10FFFF
    text.extend(bits("100010000000000000000", ZWSP, ZWNJ));
    text.push(WJ);
    text.extend(bits("1111010", ZWSP, ZWNJ));
    let r = decode_steganographr(&text).unwrap();
    assert_eq!(r.decoded, "z");
}

#[test]
fn steganographr_ignores_other_characters_inside_a_group() {
    let mut text = String::new();
    text.extend(bits("0100", ZWSP, ZWNJ));
    text.push('x');
    text.push(ZWJ);
    text.extend(bits("0001", ZWSP, ZWNJ));
    let r = decode_steganographr(&text).unwrap();
    assert_eq!(r.decoded, "A");
}

#[test]
fn steganographr_can_spell_any_code_point() {
    let mut text = String::new();
    // U+4E2D
    text.extend(bits("100111000101101", ZWSP, ZWNJ));
    let r = decode_steganographr(&text).unwrap();
    assert_eq!(r.decoded, "中");
}

#[test]
fn steganographr_finds_nothing_without_symbols() {
    assert!(decode_steganographr("").is_none());
    assert!(decode_steganographr("plain").is_none());
    assert!(decode_steganographr("\u{2060}\u{2060}").is_none());
    assert!(decode_steganographr("\u{200B}\u{200B}").is_none());
}

#[test]
fn direct_binary_reads_groups_of_eight() {
    let zw = bits("01001000 01001001", ZWSP, ZWNJ);
    let r = decode_direct_binary(&zw, ZWSP, ZWNJ, 8).unwrap();
    assert_eq!(r.decoded, "HI");
    assert_eq!(r.method, "二进制 (U+200B=0, U+200C=1, 8bit)");
    assert_eq!(r.score, Score { num: 120, den: 2 });
}

#[test]
fn direct_binary_reads_groups_of_seven() {
    let zw = bits("1001000 1101001", ZWJ, WJ);
    let r = decode_direct_binary(&zw, ZWJ, WJ, 7).unwrap();
    assert_eq!(r.decoded, "Hi");
    assert_eq!(r.method, "二进制 (U+200D=0, U+2060=1, 7bit)");
}

#[test]
fn direct_binary_swapped_roles_give_another_text() {
    let zw = bits("10110111 10110110", ZWSP, ZWNJ);
    let r = decode_direct_binary(&zw, ZWNJ, ZWSP, 8).unwrap();
    assert_eq!(r.decoded, "HI");
    // with the roles as written both values are above 127
    assert!(decode_direct_binary(&zw, ZWSP, ZWNJ, 8).is_none());
}

#[test]
fn direct_binary_drops_a_short_last_group_and_other_symbols() {
    let mut zw = bits("0100", ZWSP, ZWNJ);
    zw.push(ZWJ);
    zw.extend(bits("0001 0100001", ZWSP, ZWNJ));
    let r = decode_direct_binary(&zw, ZWSP, ZWNJ, 8).unwrap();
    assert_eq!(r.decoded, "A");
}

#[test]
fn direct_binary_needs_one_whole_group() {
    let zw = bits("1000001", ZWSP, ZWNJ);
    assert!(decode_direct_binary(&zw, ZWSP, ZWNJ, 8).is_none());
    assert!(decode_direct_binary(&zw, ZWSP, ZWNJ, 7).is_some());
    assert!(decode_direct_binary(&[], ZWSP, ZWNJ, 8).is_none());
}

#[test]
fn direct_binary_keeps_only_values_from_1_to_127() {
    let zw = bits("00000000 10000000 01000001 11111111", ZWSP, ZWNJ);
    let r = decode_direct_binary(&zw, ZWSP, ZWNJ, 8).unwrap();
    assert_eq!(r.decoded, "A");
}

#[test]
fn direct_binary_label_pads_to_four_digits_only() {
    let zw = bits("1000001", '\u{AD}', '\u{E0001}');
    let r = decode_direct_binary(&zw, '\u{AD}', '\u{E0001}', 7).unwrap();
    assert_eq!(r.method, "二进制 (U+00AD=0, U+E0001=1, 7bit)");
}

#[test]
fn segmented_binary_reads_one_character_per_segment() {
    let segments: Vec<String> = vec![
        bits("01001000", ZWSP, ZWNJ).into_iter().collect(),
        bits("01101001", ZWSP, ZWNJ).into_iter().collect(),
    ];
    let r = decode_segmented_binary(&segments, ZWSP, ZWNJ, 8).unwrap();
    assert_eq!(r.decoded, "Hi");
    assert_eq!(r.method, "分段二进制 (U+200B=0, U+200C=1, 8bit/段)");
    assert_eq!(r.score, Score { num: 120, den: 2 });
}

#[test]
fn segmented_binary_works_on_extracted_segments() {
    let mut text = String::from("T");
    text.extend(bits("1001000", ZWSP, ZWNJ));
    text.push_str("he ");
    text.extend(bits("1101001", ZWSP, ZWNJ));
    text.push_str("end");
    let segments = extract_segments(&text);
    let r = decode_segmented_binary(&segments, ZWSP, ZWNJ, 7).unwrap();
    assert_eq!(r.decoded, "Hi");
}

#[test]
fn segmented_binary_refuses_a_segment_of_another_length() {
    let segments: Vec<String> = vec![
        bits("01001000", ZWSP, ZWNJ).into_iter().collect(),
        bits("0110100", ZWSP, ZWNJ).into_iter().collect(),
    ];
    assert!(decode_segmented_binary(&segments, ZWSP, ZWNJ, 8).is_none());
    assert!(decode_segmented_binary(&segments, ZWSP, ZWNJ, 7).is_none());
}

#[test]
fn segmented_binary_refuses_a_foreign_symbol() {
    let mut with_foreign: Vec<char> = bits("0100100", ZWSP, ZWNJ);
    with_foreign.push(ZWJ);
    let segments: Vec<String> = vec![with_foreign.into_iter().collect()];
    assert!(decode_segmented_binary(&segments, ZWSP, ZWNJ, 8).is_none());
    assert!(decode_segmented_binary(&segments, ZWSP, ZWNJ, 7).is_none());
    // eight symbols of the alphabet and one foreign symbol
    let mut longer: Vec<char> = bits("01001000", ZWSP, ZWNJ);
    longer.push(ZWJ);
    let segments: Vec<String> = vec![longer.into_iter().collect()];
    assert!(decode_segmented_binary(&segments, ZWSP, ZWNJ, 8).is_none());
}

#[test]
fn segmented_binary_refuses_a_value_out_of_range() {
    let zero: Vec<String> = vec![bits("00000000", ZWSP, ZWNJ).into_iter().collect()];
    assert!(decode_segmented_binary(&zero, ZWSP, ZWNJ, 8).is_none());
    let high: Vec<String> = vec![
        bits("01000001", ZWSP, ZWNJ).into_iter().collect(),
        bits("10000000", ZWSP, ZWNJ).into_iter().collect(),
    ];
    assert!(decode_segmented_binary(&high, ZWSP, ZWNJ, 8).is_none());
}

#[test]
fn segmented_binary_finds_nothing_without_segments() {
    assert!(decode_segmented_binary(&[], ZWSP, ZWNJ, 8).is_none());
    assert!(decode_segmented_binary(&[], ZWSP, ZWNJ, 0).is_none());
}

#[test]
fn nary_reads_base_four_in_groups_of_eight() {
    let charset = ['\u{200C}', '\u{200D}', '\u{202C}', '\u{FEFF}'];
    // "Hi!" -> 0x48, 0x69, 0x21 in base 4, eight digits each
    let digits = "00001020 00001221 00000201";
    let zw: Vec<char> = digits
        .chars()
        .filter(|c| c.is_ascii_digit())
        .map(|c| charset[c.to_digit(10).unwrap() as usize])
        .collect();
    let results = decode_nary(&zw, &charset);
    assert!(!results.is_empty());
    assert_eq!(results[0].decoded, "Hi!");
    assert_eq!(results[0].method, "4进制 (U+200C+U+200D+U+202C+U+FEFF, 分组=8)");
    assert_eq!(results[0].score, Score { num: 90 + 60 + 9, den: 3 });
    for r in &results {
        assert!(r.score.exceeds(15));
    }
}

#[test]
fn nary_tries_the_group_sizes_in_order() {
    // base 2, where every group size from 4 to 8 and 15, 16 is tried:
    // sixteen digits that read as "A" in groups of 16 and of 8
    let charset = [ZWSP, ZWNJ];
    let zw = bits("0000000001000001", ZWSP, ZWNJ);
    let results = decode_nary(&zw, &charset);
    let methods: Vec<&str> = results.iter().map(|r| r.method.as_str()).collect();
    // groups of 16: 'A'; of 15: one group, value 0x20 = ' '; of 4: 0,0,4,1;
    // of 5: 0,1,0 ; of 6: 0,4; of 7: 0,0x20; of 8: 0,'A'
    assert_eq!(methods[0], "2进制 (U+200B+U+200C, 分组=16)");
    for r in &results {
        assert!(r.score.exceeds(15));
        assert!(!r.decoded.is_empty());
    }
    let of_16 = results.iter().find(|r| r.method.ends_with("分组=16)")).unwrap();
    assert_eq!(of_16.decoded, "A");
    let of_8 = results.iter().find(|r| r.method.ends_with("分组=8)")).unwrap();
    assert_eq!(of_8.decoded, "A");
    let of_15 = results.iter().find(|r| r.method.ends_with("分组=15)")).unwrap();
    assert_eq!(of_15.decoded, " ");
    // control characters alone are not printable
    assert!(results.iter().all(|r| !r.method.ends_with("分组=4)")));
    // 17 is never tried
    assert!(results.iter().all(|r| !r.method.ends_with("分组=17)")));
}

#[test]
fn nary_needs_two_symbols_and_some_digits() {
    let zw = bits("0100000101000001", ZWSP, ZWNJ);
    assert!(decode_nary(&zw, &[]).is_empty());
    assert!(decode_nary(&zw, &[ZWSP]).is_empty());
    assert!(decode_nary(&zw, &[ZWJ, WJ]).is_empty());
    assert!(decode_nary(&[], &[ZWSP, ZWNJ]).is_empty());
}

#[test]
fn nary_gives_up_a_group_size_on_an_invalid_code_point() {
    // base 2: in groups of 16 the first value is the surrogate U+D800
    let charset = [ZWSP, ZWNJ];
    let surrogate = bits("1101100000000000 0000000001000001", ZWSP, ZWNJ);
    let results = decode_nary(&surrogate, &charset);
    assert!(results.iter().all(|r| !r.method.ends_with("分组=16)")));
}

#[test]
fn nary_works_on_extracted_characters() {
    let charset = [ZWSP, ZWNJ, ZWJ];
    // base 3, eleven digits per character: 'k' = 107 = 10222 in base 3
    let digits = "00000010222 00000010202 00000011111";
    let mut text = String::from("see ");
    for c in digits.chars().filter(|c| c.is_ascii_digit()) {
        text.push(charset[c.to_digit(10).unwrap() as usize]);
    }
    text.push_str(" this");
    let results = decode_nary(&extract_all(&text), &charset);
    assert_eq!(results[0].decoded, "key");
    assert_eq!(results[0].method, "3进制 (U+200B+U+200C+U+200D, 分组=11)");
}

#[test]
fn accumulate_saturates() {
    assert_eq!(accumulate(&[], 2), 0);
    assert_eq!(accumulate(&[1, 0, 1], 2), 5);
    assert_eq!(accumulate(&[1, 2, 3], 10), 123);
    assert_eq!(accumulate(&[3, 3, 3, 3], 4), 255);
    assert_eq!(accumulate(&[1; 32], 2), u32::MAX);
    assert_eq!(accumulate(&[1; 33], 2), u32::MAX);
    assert_eq!(accumulate(&[1; 40], 2), u32::MAX);
    assert_eq!(accumulate(&[1, 0, 0, 0, 0, 0, 0, 0, 0], 16), u32::MAX);
    assert_eq!(accumulate(&[15, 15, 15, 15, 15, 15, 15, 15], 16), u32::MAX);
    assert_eq!(accumulate(&[15, 15, 15, 15, 15, 15, 15, 14], 16), u32::MAX - 1);
    assert_eq!(accumulate(&[0, 0, 7], 1000), 7);
}

#[test]
fn symbols_per_character_by_alphabet_size() {
    let expected = [
        (2, 16),
        (3, 11),
        (4, 8),
        (5, 7),
        (6, 7),
        (7, 6),
        (9, 6),
        (10, 5),
        (15, 5),
        (16, 4),
        (40, 4),
        (41, 3),
        (255, 3),
        (256, 2),
        (65535, 2),
        (65536, 1),
        (1_000_000, 1),
    ];
    for (base, width) in expected {
        assert_eq!(symbols_per_char(base), width, "base {}", base);
        // the least width whose power reaches 65536
        let reach = (base as f64).powi(width as i32);
        assert!(reach >= 65536.0);
        if width > 1 {
            assert!((base as f64).powi(width as i32 - 1) < 65536.0);
        }
    }
}
