use zw_mcp_server::mcp::protocol::{
    initialize_result, route, Content, Route, ToolCallResult, METHOD_NOT_FOUND, PARSE_ERROR,
};
use zw_mcp_server::mcp::tools::{
    decode_method, decode_with, encode_method, encode_report, encode_with, exec_analyze,
    exec_decode,
    exec_dump_raw, exec_encode, exec_list_chars, exec_list_presets, missing_text, text_source,
    tool_kind, written_line, DecodeMethod, EncodeMethod, TextSource, ToolKind,
};
use zw_mcp_server::render::push_one_decimal;
use zw_mcp_server::score::Score;
use zw_mcp_server::encode::{encode_330k, encode_binary, encode_steganographr, encode_tags};
use zw_mcp_server::report::{list_chars, list_presets};

#[test]
fn text_content() {
    let c = Content::text("hello");
    assert_eq!(c.content_type, "text");
    assert_eq!(c.text, "hello");
    let owned = Content::text(String::from("owned"));
    assert_eq!(owned.text, "owned");
}

#[test]
fn tool_results() {
    let ok = ToolCallResult::success("fine");
    assert_eq!(ok.content.len(), 1);
    assert_eq!(ok.content[0].content_type, "text");
    assert_eq!(ok.content[0].text, "fine");
    assert_eq!(ok.is_error, None);
    let bad = ToolCallResult::error(format!("bad {}", 1));
    assert_eq!(bad.content.len(), 1);
    assert_eq!(bad.content[0].text, "bad 1");
    assert_eq!(bad.is_error, Some(true));
}

#[test]
fn answer_to_initialize() {
    let r = initialize_result("1.2.3");
    assert_eq!(r.protocol_version, "2024-11-05");
    assert!(!r.capabilities.tools.list_changed);
    assert_eq!(r.server_info.name, "zw-mcp-server");
    assert_eq!(r.server_info.version, "1.2.3");
}

#[test]
fn requests_are_routed_by_method() {
    assert_eq!(route("initialize", true), Route::Initialize);
    assert_eq!(route("notifications/initialized", false), Route::Ignore);
    assert_eq!(route("notifications/initialized", true), Route::Ignore);
    assert_eq!(route("tools/list", true), Route::ListTools);
    assert_eq!(route("tools/call", true), Route::CallTool);
    assert_eq!(route("ping", false), Route::Ping);
    assert_eq!(route("resources/list", true), Route::MethodNotFound);
    assert_eq!(route("resources/list", false), Route::Ignore);
    assert_eq!(route("", true), Route::MethodNotFound);
    assert_eq!(route("Ping", true), Route::MethodNotFound);
    assert_eq!(METHOD_NOT_FOUND, -32601);
    assert_eq!(PARSE_ERROR, -32700);
}

#[test]
fn tools_by_name() {
    assert_eq!(tool_kind("zw_analyze"), Some(ToolKind::Analyze));
    assert_eq!(tool_kind("zw_decode"), Some(ToolKind::Decode));
    assert_eq!(tool_kind("zw_encode"), Some(ToolKind::Encode));
    assert_eq!(tool_kind("zw_dump_raw"), Some(ToolKind::DumpRaw));
    assert_eq!(tool_kind("zw_list_chars"), Some(ToolKind::ListChars));
    assert_eq!(tool_kind("zw_list_presets"), Some(ToolKind::ListPresets));
    assert_eq!(tool_kind("zw_unknown"), None);
    assert_eq!(tool_kind(""), None);
}

#[test]
fn methods_by_name() {
    assert_eq!(decode_method("auto"), DecodeMethod::Auto);
    assert_eq!(decode_method("anything else"), DecodeMethod::Auto);
    assert_eq!(decode_method("unicode_tags"), DecodeMethod::UnicodeTags);
    assert_eq!(decode_method("steganographr"), DecodeMethod::Steganographr);
    assert_eq!(decode_method("binary"), DecodeMethod::Binary);
    assert_eq!(decode_method("330k"), DecodeMethod::Nary);
    assert_eq!(encode_method("binary"), Some(EncodeMethod::Binary));
    assert_eq!(encode_method("steganographr"), Some(EncodeMethod::Steganographr));
    assert_eq!(encode_method("tags"), Some(EncodeMethod::Tags));
    assert_eq!(encode_method("330k"), Some(EncodeMethod::Nary));
    assert_eq!(encode_method("auto"), None);
}

#[test]
fn decode_tool_with_one_method() {
    let tags = encode_tags("Hi there", "cover");
    let found = decode_with(&tags, "unicode_tags");
    assert_eq!(found.len(), 1);
    assert_eq!(found[0].decoded, "Hi there");
    assert!(decode_with(&tags, "steganographr").is_empty());

    let steg = encode_steganographr("Hi there", "cover");
    let found = decode_with(&steg, "steganographr");
    assert_eq!(found.len(), 1);
    assert_eq!(found[0].decoded, "Hi there");

    let binary = encode_binary("Hi there", '\u{200B}', '\u{200C}', 8);
    let found = decode_with(&binary, "binary");
    assert_eq!(found[0].decoded, "Hi there");
    assert_eq!(found[0].method, "二进制 (U+200B=0, U+200C=1, 8bit)");
    for pair in found.windows(2) {
        assert!(pair[0].score.ge(&pair[1].score));
    }

    let charset = ['\u{200C}', '\u{200D}', '\u{202C}', '\u{FEFF}'];
    let nary = encode_330k("Hi there", "", &charset);
    let found = decode_with(&nary, "330k");
    assert_eq!(found[0].decoded, "Hi there");

    let auto = decode_with(&binary, "auto");
    assert_eq!(auto[0].decoded, "Hi there");
    assert!(decode_with("nothing hidden", "auto").is_empty());
    assert!(decode_with("nothing hidden", "binary").is_empty());
}

#[test]
fn encode_tool_with_each_method() {
    let charset = ['\u{200C}', '\u{200D}', '\u{202C}', '\u{FEFF}'];
    assert_eq!(
        encode_with("Hi", "binary", ""),
        Some(encode_binary("Hi", '\u{200B}', '\u{200C}', 8))
    );
    assert_eq!(encode_with("Hi", "steganographr", "cover"), Some(encode_steganographr("Hi", "cover")));
    assert_eq!(encode_with("Hi", "tags", "cover"), Some(encode_tags("Hi", "cover")));
    assert_eq!(encode_with("Hi", "330k", "cover"), Some(encode_330k("Hi", "cover", &charset)));
    assert_eq!(encode_with("Hi", "rot13", "cover"), None);
    assert_eq!(encode_with("Hi", "", ""), None);
}

#[test]
fn the_binary_tool_uses_any_cover_that_is_not_empty() {
    let payload = encode_binary("Hi", '\u{200B}', '\u{200C}', 8);
    assert_eq!(encode_with("Hi", "binary", "a"), Some(format!("{}a", payload)));
    assert_eq!(encode_with("Hi", "binary", "abcde"), Some(format!("ab{}cde", payload)));
    assert_eq!(encode_with("Hi", "binary", "é"), Some(format!("{}é", payload)));
    // the other methods leave a cover of one character out
    assert_eq!(encode_with("Hi", "tags", "a"), Some(encode_tags("Hi", "")));
    assert_eq!(encode_with("Hi", "tags", "é"), Some(encode_tags("Hi", "")));
}

#[test]
fn analyze_tool() {
    let r = exec_analyze(None, "a\u{200B}");
    assert_eq!(r.is_error, None);
    assert_eq!(
        r.content[0].text,
        "总字符数: 2\n可见字符数: 1\n零宽字符数: 1\n零宽字符种类: 1\n\n字符分布:\n  U+200B ZERO WIDTH \
         SPACE (ZWSP): 1 次\n"
    );
    let with_file = exec_analyze(Some("notes/a.txt"), "ab");
    assert_eq!(
        with_file.content[0].text,
        "文件: notes/a.txt\n总字符数: 2\n可见字符数: 2\n零宽字符数: 0\n零宽字符种类: \
         0\n未检测到零宽字符!\n"
    );
}

#[test]
fn dump_tool() {
    let r = exec_dump_raw(None, "a\u{200D}");
    assert_eq!(r.is_error, None);
    assert_eq!(r.content[0].text, "原始零宽字符序列:\n[   1] U+200D ZERO WIDTH JOINER (ZWJ)\n");
    let none = exec_dump_raw(None, "plain");
    assert_eq!(none.content[0].text, "文本中未发现零宽字符。");
    let with_file = exec_dump_raw(Some("a.txt"), "plain");
    assert_eq!(with_file.content[0].text, "文件: a.txt\n文本中未发现零宽字符。");
    let found = exec_dump_raw(Some("a.txt"), "\u{200B}");
    assert_eq!(
        found.content[0].text,
        "文件: a.txt\n原始零宽字符序列:\n[   0] U+200B ZERO WIDTH SPACE (ZWSP)\n"
    );
}

#[test]
fn list_tools() {
    let chars = exec_list_chars();
    assert_eq!(chars.is_error, None);
    assert_eq!(chars.content.len(), 1);
    assert_eq!(chars.content[0].content_type, "text");
    assert_eq!(chars.content[0].text, list_chars());
    let presets = exec_list_presets();
    assert_eq!(presets.is_error, None);
    assert_eq!(presets.content[0].text, list_presets());
}

#[test]
fn text_comes_from_the_file_first() {
    assert!(matches!(text_source(Some("a.txt"), Some("inline")), TextSource::File("a.txt")));
    assert!(matches!(text_source(Some("a.txt"), None), TextSource::File("a.txt")));
    assert!(matches!(text_source(None, Some("inline")), TextSource::Inline("inline")));
    assert!(matches!(text_source(None, None), TextSource::Missing));
    let missing = missing_text();
    assert_eq!(missing.is_error, Some(true));
    assert_eq!(missing.content[0].text, "缺少参数: 请提供 text 或 file_path");
}

#[test]
fn decode_tool_report() {
    let tags = encode_tags("flag{abc}", "");
    let r = exec_decode(None, &tags, Some("unicode_tags"));
    assert_eq!(r.is_error, None);
    assert_eq!(
        r.content[0].text,
        "找到 1 个可能的解码结果（按置信度排序）:\n\n[1] 方案: Unicode Tags (U+E0000-U+E007F)\n    \
         得分: 112.3\n    结果: flag{abc}\n\n★ 最佳结果: flag{abc}\n"
    );
    let with_file = exec_decode(Some("in.txt"), &tags, Some("unicode_tags"));
    assert!(with_file.content[0].text.starts_with("文件: in.txt\n找到 1 个"));
}

#[test]
fn decode_tool_report_without_results() {
    for method in [None, Some("auto"), Some("binary"), Some("330k")] {
        let r = exec_decode(Some("in.txt"), "nothing hidden", method);
        assert_eq!(r.is_error, None);
        assert_eq!(r.content[0].text, "未找到有效解码结果。请确认文本中包含零宽字符隐写信息。");
    }
}

#[test]
fn decode_tool_shows_ten_results_at_most() {
    // many symbols, so that the sweeps find many texts
    let mut text = String::new();
    let symbols = ['\u{200B}', '\u{200C}', '\u{200D}', '\u{2060}', '\u{FEFF}', '\u{202C}'];
    let mut seed: u32 = 7;
    for _ in 0..400 {
        seed = seed.wrapping_mul(1_103_515_245).wrapping_add(12_345);
        text.push(symbols[(seed >> 16) as usize % symbols.len()]);
    }
    let results = decode_with(&text, "auto");
    let report = exec_decode(None, &text, None).content.remove(0).text;
    if results.is_empty() {
        assert_eq!(report, "未找到有效解码结果。请确认文本中包含零宽字符隐写信息。");
    } else {
        assert!(report.starts_with(&format!("找到 {} 个可能的解码结果", results.len())));
        let shown = report.lines().filter(|l| l.starts_with('[') && l.contains("] 方案: ")).count();
        assert_eq!(shown, results.len().min(10));
        assert!(report.ends_with(&format!("★ 最佳结果: {}\n", results[0].decoded)));
        for pair in results.windows(2) {
            assert!(pair[0].score.ge(&pair[1].score));
        }
    }
}

#[test]
fn scores_are_shown_with_one_decimal() {
    assert_eq!(Score { num: 1011, den: 9 }.tenths(), 1123);
    assert_eq!(Score { num: 120, den: 2 }.tenths(), 600);
    assert_eq!(Score { num: 0, den: 1 }.tenths(), 0);
    assert_eq!(Score { num: 140, den: 1 }.tenths(), 1400);
    // halves go to the even tenth
    assert_eq!(Score { num: 1, den: 4 }.tenths(), 2);
    assert_eq!(Score { num: 3, den: 4 }.tenths(), 8);
    assert_eq!(Score { num: 7, den: 20 }.tenths(), 4);
    assert_eq!(Score { num: 9, den: 20 }.tenths(), 4);
    assert_eq!(Score { num: 26, den: 100 }.tenths(), 3);
    assert_eq!(Score { num: 24, den: 100 }.tenths(), 2);
    let shown = |tenths: u64| {
        let mut out = Vec::new();
        push_one_decimal(&mut out, tenths);
        out.into_iter().collect::<String>()
    };
    assert_eq!(shown(0), "0.0");
    assert_eq!(shown(7), "0.7");
    assert_eq!(shown(1123), "112.3");
    assert_eq!(shown(1400), "140.0");
}

#[test]
fn encode_tool_report() {
    let done = exec_encode(Some("Hi"), None, "").ok().unwrap();
    let encoded = encode_binary("Hi", '\u{200B}', '\u{200C}', 8);
    assert_eq!(done.text, encoded);
    assert_eq!(
        done.report,
        format!(
            "编码方法: binary\n消息: Hi\n编码后长度: 16 字符\n编码结果（repr）: {:?}\n\n编码文本:\n{}\n",
            encoded, encoded
        )
    );
    let in_cover = exec_encode(Some("Hi"), Some("tags"), "cover").ok().unwrap();
    assert_eq!(in_cover.text, "co\u{E0048}\u{E0069}ver");
    assert!(in_cover.report.starts_with("编码方法: tags\n消息: Hi\n编码后长度: 7 字符\n"));
    assert!(in_cover.report.ends_with("\n\n编码文本:\nco\u{E0048}\u{E0069}ver\n"));
}

#[test]
fn encode_report_from_its_parts() {
    assert_eq!(
        encode_report("tags", "Hi", "a\u{E0048}b", "\"a\\u{e0048}b\""),
        "编码方法: tags\n消息: Hi\n编码后长度: 3 字符\n编码结果（repr）: \"a\\u{e0048}b\"\n\n编码文本:\na\u{E0048}b\n"
    );
    assert_eq!(
        encode_report("", "", "", ""),
        "编码方法: \n消息: \n编码后长度: 0 字符\n编码结果（repr）: \n\n编码文本:\n\n"
    );
}

#[test]
fn encode_tool_errors() {
    let missing = exec_encode(None, Some("rot13"), "cover").err().unwrap();
    assert_eq!(missing.is_error, Some(true));
    assert_eq!(missing.content[0].text, "缺少参数: message");
    let unknown = exec_encode(Some("Hi"), Some("rot13"), "cover").err().unwrap();
    assert_eq!(unknown.is_error, Some(true));
    assert_eq!(unknown.content[0].text, "未知编码方法: rot13");
    assert_eq!(written_line("out/hidden.txt"), "\n✓ 已写入文件: out/hidden.txt\n");
}
