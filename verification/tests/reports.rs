use zw_mcp_server::analysis::analyze;
use zw_mcp_server::render::{push_code_label, push_decimal, push_numeral};
use zw_mcp_server::report::{dump_raw, format_analysis, list_chars, list_presets};

fn code_label(cp: u32) -> String {
    let mut out = Vec::new();
    push_code_label(&mut out, cp);
    out.into_iter().collect()
}

fn numeral(v: u64, hex: bool, width: usize, fill: char) -> String {
    let mut out = vec!['>'];
    push_numeral(&mut out, v, hex, width, fill);
    out.into_iter().collect()
}

#[test]
fn code_labels_have_at_least_four_hex_digits() {
    assert_eq!(code_label(0x200B), "U+200B");
    assert_eq!(code_label(0xAD), "U+00AD");
    assert_eq!(code_label(0), "U+0000");
    assert_eq!(code_label(0xFEFF), "U+FEFF");
    assert_eq!(code_label(0xE0041), "U+E0041");
    assert_eq!(code_label(0x10FFFF), "U+10FFFF");
    for cp in [1u32, 0x10, 0x123, 0xABCD, 0xFFFFF, u32::MAX] {
        assert_eq!(code_label(cp), format!("U+{:04X}", cp));
    }
}

#[test]
fn numerals_in_both_bases_with_padding() {
    assert_eq!(numeral(0, false, 0, ' '), ">0");
    assert_eq!(numeral(7, false, 4, ' '), ">   7");
    assert_eq!(numeral(12345, false, 4, ' '), ">12345");
    assert_eq!(numeral(255, true, 0, '0'), ">FF");
    assert_eq!(numeral(255, true, 5, '0'), ">000FF");
    assert_eq!(numeral(u64::MAX, false, 3, '0'), format!(">{}", u64::MAX));
    assert_eq!(numeral(u64::MAX, true, 3, '0'), format!(">{:X}", u64::MAX));
    for v in [9u64, 10, 99, 100, 1000, 65535, 65536] {
        assert_eq!(numeral(v, false, 6, ' '), format!(">{:6}", v));
        assert_eq!(numeral(v, true, 6, '0'), format!(">{:06X}", v));
    }
    let mut out = vec!['n', '='];
    push_decimal(&mut out, 1024);
    assert_eq!(out.into_iter().collect::<String>(), "n=1024");
}

#[test]
fn analysis_report_lists_the_distribution_by_frequency() {
    let report = format_analysis(&analyze("a\u{200B}\u{200C}b\u{200B}"));
    assert_eq!(
        report,
        "总字符数: 5\n可见字符数: 2\n零宽字符数: 3\n零宽字符种类: 2\n\n字符分布:\n  \
         U+200B ZERO WIDTH SPACE (ZWSP): 2 次\n  U+200C ZERO WIDTH NON-JOINER (ZWNJ): 1 次\n"
    );
}

#[test]
fn analysis_report_orders_ties_by_code_point() {
    let report = format_analysis(&analyze("\u{FEFF}\u{200D}\u{2060}\u{2060}\u{00AD}"));
    let lines: Vec<&str> = report.lines().skip(6).collect();
    assert_eq!(
        lines,
        vec![
            "  U+2060 WORD JOINER (WJ): 2 次",
            "  U+00AD SOFT HYPHEN (SHY): 1 次",
            "  U+200D ZERO WIDTH JOINER (ZWJ): 1 次",
            "  U+FEFF ZERO WIDTH NO-BREAK SPACE / BOM: 1 次",
        ]
    );
}

#[test]
fn analysis_report_without_zero_width_characters() {
    assert_eq!(
        format_analysis(&analyze("abc\n")),
        "总字符数: 4\n可见字符数: 3\n零宽字符数: 0\n零宽字符种类: 0\n未检测到零宽字符!\n"
    );
}

#[test]
fn analysis_report_names_tags() {
    let report = format_analysis(&analyze("x\u{E0041}"));
    assert!(report.ends_with("\n字符分布:\n  U+E0041 UNICODE TAG: 1 次\n"));
}

#[test]
fn raw_dump_lists_each_zero_width_character_with_its_position() {
    assert_eq!(
        dump_raw("a\u{200B}b\u{E0041}\u{E0001}\u{E007F}"),
        "原始零宽字符序列:\n[   1] U+200B ZERO WIDTH SPACE (ZWSP)\n[   3] U+E0041 UNICODE TAG \
         (ASCII 65 = 'A')\n[   4] U+E0001 UNICODE TAG (ASCII 1 = '?')\n[   5] U+E007F UNICODE TAG \
         (ASCII 127 = '?')\n"
    );
    assert_eq!(dump_raw("plain"), "原始零宽字符序列:\n");
    assert_eq!(dump_raw(""), "原始零宽字符序列:\n");
}

#[test]
fn raw_dump_positions_grow_beyond_four_digits() {
    let mut text = "x".repeat(12345);
    text.push('\u{FE0F}');
    assert_eq!(dump_raw(&text), "原始零宽字符序列:\n[12345] U+FE0F VARIATION SELECTOR-16\n");
}

#[test]
fn list_of_characters() {
    let list = list_chars();
    assert!(list.starts_with(
        "零宽/不可见 Unicode 字符大全:\n\n\n[核心零宽]\n  U+200B  ZERO WIDTH SPACE (ZWSP)\n  U+200C  "
    ));
    assert!(list.contains("\n\n[格式字符]\n  U+00AD  SOFT HYPHEN (SHY)\n  U+034F  "));
    assert!(list.ends_with(
        "  U+2029  PARAGRAPH SEPARATOR\n\nUnicode Tags: U+E0001 - U+E007F (128个，映射到 \
         ASCII)\n\n共计 54 + 128 = 182 个字符\n"
    ));
    assert_eq!(list.lines().filter(|l| l.starts_with('[')).count(), 8);
    assert_eq!(list.lines().filter(|l| l.starts_with("  U+")).count(), 54);
}

#[test]
fn list_of_presets() {
    let list = list_presets();
    assert!(list.starts_with(
        "编码预设方案:\n\n[330k_default]\n  名称: 330k Unicode Steganography (默认4字符)\n  说明: \
         330k.github.io 默认方案: 4字符=2bit编码\n  字符: U+200C U+200D U+202C U+FEFF\n\n[steganographr]\n"
    ));
    assert!(list.ends_with(
        "[irongeek_zw]\n  名称: Irongeek Zero-Width\n  说明: Irongeek 推荐的最兼容零宽字符组合\n  字符: \
         U+200B U+200C U+200D U+FEFF\n\n"
    ));
    assert_eq!(list.lines().filter(|l| l.starts_with('[')).count(), 6);
}
