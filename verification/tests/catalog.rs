use zw_mcp_server::chars::{
    all_zero_width_chars, is_unicode_tag, is_zero_width, UNICODE_TAGS_END, UNICODE_TAGS_START,
};
use zw_mcp_server::presets::encoding_presets;

#[test]
fn catalog_has_54_entries_with_unique_codepoints() {
    let all = all_zero_width_chars();
    assert_eq!(all.len(), 54);
    for (i, a) in all.iter().enumerate() {
        assert_eq!(a.ch as u32, a.codepoint);
        assert!(!a.name.is_empty());
        for b in &all[i + 1..] {
            assert_ne!(a.codepoint, b.codepoint);
        }
    }
}

#[test]
fn catalog_starts_with_the_core_characters() {
    let all = all_zero_width_chars();
    assert_eq!(all[0].codepoint, 0x200B);
    assert_eq!(all[0].name, "ZERO WIDTH SPACE (ZWSP)");
    assert_eq!(all[0].category, "核心零宽");
    assert_eq!(all[3].codepoint, 0xFEFF);
    assert_eq!(all[3].name, "ZERO WIDTH NO-BREAK SPACE / BOM");
    assert_eq!(all[4].codepoint, 0x2060);
    assert_eq!(all[5].category, "方向控制");
    assert_eq!(all[53].codepoint, 0x2029);
    assert_eq!(all[53].name, "PARAGRAPH SEPARATOR");
    assert_eq!(all[53].category, "分隔符");
}

#[test]
fn catalog_is_grouped_into_eight_categories() {
    let all = all_zero_width_chars();
    let mut seen: Vec<&str> = Vec::new();
    for e in &all {
        if seen.last() != Some(&e.category) {
            assert!(!seen.contains(&e.category), "category {} is split", e.category);
            seen.push(e.category);
        }
    }
    assert_eq!(
        seen,
        vec!["核心零宽", "方向控制", "不可见数学", "蒙古文", "格式字符", "变体选择器", "已弃用格式", "分隔符"]
    );
}

#[test]
fn every_catalog_entry_is_zero_width() {
    for e in all_zero_width_chars() {
        assert!(is_zero_width(e.ch), "U+{:04X}", e.codepoint);
        assert!(!is_unicode_tag(e.ch));
    }
}

#[test]
fn zero_width_means_catalogued_or_tag() {
    let catalog: Vec<u32> = all_zero_width_chars().iter().map(|e| e.codepoint).collect();
    let mut count = 0;
    for cp in 0..=0x10FFFFu32 {
        if let Some(ch) = char::from_u32(cp) {
            let expected = catalog.contains(&cp) || (0xE0000..=0xE007F).contains(&cp);
            assert_eq!(is_zero_width(ch), expected, "U+{:04X}", cp);
            if expected {
                count += 1;
            }
        }
    }
    assert_eq!(count, 54 + 128);
}

#[test]
fn ascii_letters_and_digits_are_not_zero_width() {
    for ch in ('a'..='z').chain('A'..='Z').chain('0'..='9') {
        assert!(!is_zero_width(ch));
        assert!(!is_unicode_tag(ch));
    }
    assert!(!is_zero_width(' '));
    assert!(!is_zero_width('\n'));
}

#[test]
fn unicode_tag_range_bounds() {
    assert_eq!(UNICODE_TAGS_START, 0xE0000);
    assert_eq!(UNICODE_TAGS_END, 0xE007F);
    assert!(!is_unicode_tag('\u{DFFFF}'));
    assert!(is_unicode_tag('\u{E0000}'));
    assert!(is_unicode_tag('\u{E0041}'));
    assert!(is_unicode_tag('\u{E007F}'));
    assert!(!is_unicode_tag('\u{E0080}'));
    assert!(is_zero_width('\u{E0000}'));
    assert!(is_zero_width('\u{E007F}'));
    assert!(!is_zero_width('\u{E0080}'));
}

#[test]
fn range_edges_of_the_classifier() {
    assert!(!is_zero_width('\u{200A}'));
    assert!(is_zero_width('\u{200B}'));
    assert!(is_zero_width('\u{200F}'));
    assert!(!is_zero_width('\u{2010}'));
    assert!(!is_zero_width('\u{2065}'));
    assert!(is_zero_width('\u{2066}'));
    assert!(is_zero_width('\u{FE0F}'));
    assert!(!is_zero_width('\u{FE10}'));
    assert!(is_zero_width('\u{00AD}'));
    assert!(!is_zero_width('\u{00AE}'));
}

#[test]
fn six_presets_in_order() {
    let presets = encoding_presets();
    let keys: Vec<&str> = presets.iter().map(|(k, _)| *k).collect();
    assert_eq!(
        keys,
        vec!["330k_default", "steganographr", "stegcloak", "zwsp_binary", "common_3char", "irongeek_zw"]
    );
    assert_eq!(presets[0].1.name, "330k Unicode Steganography (默认4字符)");
    assert_eq!(presets[0].1.chars, vec!['\u{200C}', '\u{200D}', '\u{202C}', '\u{FEFF}']);
    assert_eq!(presets[0].1.description, "330k.github.io 默认方案: 4字符=2bit编码");
    assert_eq!(presets[1].1.chars, vec!['\u{2060}', '\u{200B}', '\u{200C}']);
    assert_eq!(presets[3].1.chars, vec!['\u{200B}', '\u{200C}']);
    assert_eq!(presets[5].1.name, "Irongeek Zero-Width");
}

#[test]
fn preset_alphabets_are_distinct_zero_width_characters() {
    for (key, preset) in encoding_presets() {
        assert!(preset.chars.len() >= 2, "{}", key);
        for (i, a) in preset.chars.iter().enumerate() {
            assert!(is_zero_width(*a));
            for b in &preset.chars[i + 1..] {
                assert_ne!(a, b, "{}", key);
            }
        }
    }
}
