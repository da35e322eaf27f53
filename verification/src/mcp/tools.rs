//! What each tool computes, once its arguments are plain values: the
//! choice of a decoding or encoding method by name, and the reports that
//! need no input or output.

use vstd::prelude::*;
use crate::analysis::{analyze, extract_all, spec_distribution, zero_width_only};
use crate::auto::{
    at_most, auto_decode, pair_sweep, sort_by_score, sort_results, spec_auto_decode,
    sweep_candidates, PairInput, PairSource, DIRECT_SYMBOLS,
};
use crate::decode::{
    all_wf, decode_nary, decode_steganographr, decode_unicode_tags, option_seq, push_found,
    spec_decode_nary, spec_decode_steganographr, spec_decode_unicode_tags, views, DecodeResult,
    DecodeView, ZERO_WIDTH_NON_JOINER, ZERO_WIDTH_SPACE,
};
use crate::encode::{
    encode_330k, encode_binary, encode_steganographr, encode_tags, embed, nary_payload,
    spec_encode_binary, steg_payload, tags_payload,
};
use crate::mcp::protocol::ToolCallResult;
use crate::ranking::{rank_symbols, ranking};
use crate::render::{decimal, one_decimal, push_decimal, push_one_decimal};
use crate::report::{
    dump_lines, dump_raw, format_analysis, list_chars, list_presets, spec_analysis_report,
    spec_dump_raw, spec_list_chars, spec_list_presets,
};
use crate::text::{extend_chars, extend_str, same_text, string_from_chars, to_chars};

verus! {

/// The tools that the server offers.
#[derive(Debug, Clone, Copy, PartialEq, Eq, Structural)]
pub enum ToolKind {
    Analyze,
    Decode,
    Encode,
    DumpRaw,
    ListChars,
    ListPresets,
}

/// The tool called `name`, if there is one.
pub open spec fn spec_tool_kind(name: Seq<char>) -> Option<ToolKind> {
    if name == "zw_analyze"@ {
        Some(ToolKind::Analyze)
    } else if name == "zw_decode"@ {
        Some(ToolKind::Decode)
    } else if name == "zw_encode"@ {
        Some(ToolKind::Encode)
    } else if name == "zw_dump_raw"@ {
        Some(ToolKind::DumpRaw)
    } else if name == "zw_list_chars"@ {
        Some(ToolKind::ListChars)
    } else if name == "zw_list_presets"@ {
        Some(ToolKind::ListPresets)
    } else {
        None
    }
}

/// The tool called `name`, if there is one.
pub fn tool_kind(name: &str) -> (r: Option<ToolKind>)
    ensures
        r == spec_tool_kind(name@),
{
    if same_text(name, "zw_analyze") {
        Some(ToolKind::Analyze)
    } else if same_text(name, "zw_decode") {
        Some(ToolKind::Decode)
    } else if same_text(name, "zw_encode") {
        Some(ToolKind::Encode)
    } else if same_text(name, "zw_dump_raw") {
        Some(ToolKind::DumpRaw)
    } else if same_text(name, "zw_list_chars") {
        Some(ToolKind::ListChars)
    } else if same_text(name, "zw_list_presets") {
        Some(ToolKind::ListPresets)
    } else {
        None
    }
}

/// The alphabet of the 330k scheme.
pub open spec fn default_alphabet() -> Seq<char> {
    seq!['\u{200C}', '\u{200D}', '\u{202C}', '\u{FEFF}']
}

/// The alphabet of the 330k scheme.
pub fn default_charset() -> (r: Vec<char>)
    ensures
        r@ == default_alphabet(),
{
    vec!['\u{200C}', '\u{200D}', '\u{202C}', '\u{FEFF}']
}

// ---------------------------------------------------------------------
// Decoding
// ---------------------------------------------------------------------

/// The ways in which the decode tool can be asked to decode.
#[derive(Debug, Clone, Copy, PartialEq, Eq, Structural)]
pub enum DecodeMethod {
    Auto,
    UnicodeTags,
    Steganographr,
    Binary,
    Nary,
}

/// The decoding method called `name`; every unknown name means `Auto`.
pub open spec fn spec_decode_method(name: Seq<char>) -> DecodeMethod {
    if name == "unicode_tags"@ {
        DecodeMethod::UnicodeTags
    } else if name == "steganographr"@ {
        DecodeMethod::Steganographr
    } else if name == "binary"@ {
        DecodeMethod::Binary
    } else if name == "330k"@ {
        DecodeMethod::Nary
    } else {
        DecodeMethod::Auto
    }
}

/// The decoding method called `name`.
pub fn decode_method(name: &str) -> (r: DecodeMethod)
    ensures
        r == spec_decode_method(name@),
{
    if same_text(name, "unicode_tags") {
        DecodeMethod::UnicodeTags
    } else if same_text(name, "steganographr") {
        DecodeMethod::Steganographr
    } else if same_text(name, "binary") {
        DecodeMethod::Binary
    } else if same_text(name, "330k") {
        DecodeMethod::Nary
    } else {
        DecodeMethod::Auto
    }
}

/// What the decode tool finds in `text` with the method `method`:
/// the one strategy asked for; for `Binary`, the direct binary sweep by
/// descending score; for `Nary`, the N-ary strategy with the alphabet of
/// the 330k scheme; for `Auto`, everything.
pub open spec fn spec_decode_with(text: Seq<char>, method: DecodeMethod) -> Seq<DecodeView> {
    match method {
        DecodeMethod::UnicodeTags => option_seq(spec_decode_unicode_tags(text)),
        DecodeMethod::Steganographr => option_seq(spec_decode_steganographr(text)),
        DecodeMethod::Binary => {
            let top = ranking(spec_distribution(text));
            let limit = at_most(top.len(), DIRECT_SYMBOLS as nat);
            sort_by_score(
                sweep_candidates(PairSource::Stream(zero_width_only(text)), top, limit, limit),
            )
        },
        DecodeMethod::Nary => spec_decode_nary(zero_width_only(text), default_alphabet()),
        DecodeMethod::Auto => spec_auto_decode(text),
    }
}

/// What the decode tool finds in `text` with the method called `method`.
pub fn decode_with(text: &str, method: &str) -> (r: Vec<DecodeResult>)
    ensures
        views(r@) == spec_decode_with(text@, spec_decode_method(method@)),
        all_wf(r@),
{
    match decode_method(method) {
        DecodeMethod::UnicodeTags => {
            let mut results: Vec<DecodeResult> = Vec::new();
            push_found(&mut results, decode_unicode_tags(text));
            results
        },
        DecodeMethod::Steganographr => {
            let mut results: Vec<DecodeResult> = Vec::new();
            push_found(&mut results, decode_steganographr(text));
            results
        },
        DecodeMethod::Binary => {
            let analysis = analyze(text);
            let zw_all = extract_all(text);
            let top = rank_symbols(&analysis.distribution);
            let limit: usize = if top.len() < DIRECT_SYMBOLS {
                top.len()
            } else {
                DIRECT_SYMBOLS
            };
            let mut results: Vec<DecodeResult> = Vec::new();
            pair_sweep(&PairInput::Stream(zw_all.as_slice()), top.as_slice(), limit, &mut results);
            assert(views(results@) =~= sweep_candidates(
                PairSource::Stream(zero_width_only(text@)),
                top@,
                limit as nat,
                limit as nat,
            ));
            sort_results(results)
        },
        DecodeMethod::Nary => {
            let zw_all = extract_all(text);
            let charset = default_charset();
            decode_nary(zw_all.as_slice(), charset.as_slice())
        },
        DecodeMethod::Auto => auto_decode(text),
    }
}

// ---------------------------------------------------------------------
// Encoding
// ---------------------------------------------------------------------

/// The ways in which the encode tool can be asked to encode.
#[derive(Debug, Clone, Copy, PartialEq, Eq, Structural)]
pub enum EncodeMethod {
    Binary,
    Steganographr,
    Tags,
    Nary,
}

/// The encoding method called `name`, if there is one.
pub open spec fn spec_encode_method(name: Seq<char>) -> Option<EncodeMethod> {
    if name == "binary"@ {
        Some(EncodeMethod::Binary)
    } else if name == "steganographr"@ {
        Some(EncodeMethod::Steganographr)
    } else if name == "tags"@ {
        Some(EncodeMethod::Tags)
    } else if name == "330k"@ {
        Some(EncodeMethod::Nary)
    } else {
        None
    }
}

/// The encoding method called `name`, if there is one.
pub fn encode_method(name: &str) -> (r: Option<EncodeMethod>)
    ensures
        r == spec_encode_method(name@),
{
    if same_text(name, "binary") {
        Some(EncodeMethod::Binary)
    } else if same_text(name, "steganographr") {
        Some(EncodeMethod::Steganographr)
    } else if same_text(name, "tags") {
        Some(EncodeMethod::Tags)
    } else if same_text(name, "330k") {
        Some(EncodeMethod::Nary)
    } else {
        None
    }
}

/// `payload` placed in the middle of `cover`, after the first half of its
/// characters (rounded down); `payload` alone if the cover is empty.
pub open spec fn embed_in_any(payload: Seq<char>, cover: Seq<char>) -> Seq<char> {
    if cover.len() > 0 {
        let mid = cover.len() as int / 2;
        cover.take(mid) + payload + cover.skip(mid)
    } else {
        payload
    }
}

/// What the encode tool makes of `message` with the method `method`.
/// The binary method uses `U+200B` for 0, `U+200C` for 1 and 8 bits, and
/// places its payload in any cover that is not empty; the 330k method
/// uses the alphabet of the 330k scheme.
pub open spec fn spec_encode_with(message: Seq<char>, method: EncodeMethod, cover: Seq<char>)
    -> Seq<char> {
    match method {
        EncodeMethod::Binary => embed_in_any(
            spec_encode_binary(message, ZERO_WIDTH_SPACE, ZERO_WIDTH_NON_JOINER, 8),
            cover,
        ),
        EncodeMethod::Steganographr => embed(steg_payload(message), cover),
        EncodeMethod::Tags => embed(tags_payload(message), cover),
        EncodeMethod::Nary => embed(nary_payload(message, default_alphabet()), cover),
    }
}

/// What the encode tool makes of `message` with the method called
/// `method`; none if there is no such method.
pub fn encode_with(message: &str, method: &str, cover: &str) -> (r: Option<String>)
    ensures
        match spec_encode_method(method@) {
            Some(m) => r is Some && r->0@ == spec_encode_with(message@, m, cover@),
            None => r is None,
        },
{
    match encode_method(method) {
        Some(EncodeMethod::Binary) => {
            let payload = encode_binary(message, ZERO_WIDTH_SPACE, ZERO_WIDTH_NON_JOINER, 8);
            let cover_chars = to_chars(cover);
            if cover_chars.len() == 0 {
                return Some(payload);
            }
            let payload_chars = to_chars(payload.as_str());
            let mid: usize = cover_chars.len() / 2;
            let mut out: Vec<char> = Vec::new();
            extend_chars(&mut out, vstd::slice::slice_subrange(cover_chars.as_slice(), 0, mid));
            extend_chars(&mut out, payload_chars.as_slice());
            extend_chars(
                &mut out,
                vstd::slice::slice_subrange(cover_chars.as_slice(), mid, cover_chars.len()),
            );
            Some(string_from_chars(out.as_slice()))
        },
        Some(EncodeMethod::Steganographr) => Some(encode_steganographr(message, cover)),
        Some(EncodeMethod::Tags) => Some(encode_tags(message, cover)),
        Some(EncodeMethod::Nary) => {
            let charset = default_charset();
            Some(encode_330k(message, cover, charset.as_slice()))
        },
        None => None,
    }
}

// ---------------------------------------------------------------------
// Reports
// ---------------------------------------------------------------------

/// The line that names the file a report is about; empty if the text did
/// not come from a file.
pub open spec fn file_line(file_path: Option<Seq<char>>) -> Seq<char> {
    match file_path {
        Some(p) => "文件: "@ + p + "\n"@,
        None => Seq::empty(),
    }
}

/// The text of an optional string.
pub open spec fn text_of(s: Option<&str>) -> Option<Seq<char>> {
    match s {
        Some(p) => Some(p@),
        None => None,
    }
}

/// Appends the line that names the file.
fn push_file_line(out: &mut Vec<char>, file_path: Option<&str>)
    ensures
        final(out)@ == old(out)@ + file_line(text_of(file_path)),
{
    match file_path {
        Some(p) => {
            extend_str(out, "文件: ");
            extend_str(out, p);
            extend_str(out, "\n");
        },
        None => {
        },
    }
}

/// The analyze tool: the report on the analysis of `text`, behind the
/// name of the file it came from, if any.
pub fn exec_analyze(file_path: Option<&str>, text: &str) -> (r: ToolCallResult)
    ensures
        r.is_message(file_line(text_of(file_path)) + spec_analysis_report(text@), false),
{
    let mut out: Vec<char> = Vec::new();
    push_file_line(&mut out, file_path);
    let analysis = analyze(text);
    let report = format_analysis(&analysis);
    extend_str(&mut out, report.as_str());
    ToolCallResult::success_with(string_from_chars(out.as_slice()))
}

/// What the dump tool reports on `text`: the raw dump, or the note that
/// the text has no zero-width character; behind the name of the file the
/// text came from, if any.
pub open spec fn spec_dump_report(file_path: Option<Seq<char>>, text: Seq<char>) -> Seq<char> {
    if dump_lines(text, text.len()).len() == 0 {
        file_line(file_path) + "文本中未发现零宽字符。"@
    } else {
        file_line(file_path) + spec_dump_raw(text)
    }
}

/// The dump tool.
pub fn exec_dump_raw(file_path: Option<&str>, text: &str) -> (r: ToolCallResult)
    ensures
        r.is_message(spec_dump_report(text_of(file_path), text@), false),
{
    let mut out: Vec<char> = Vec::new();
    push_file_line(&mut out, file_path);
    let raw = dump_raw(text);
    let raw_chars = to_chars(raw.as_str());
    let heading = to_chars("原始零宽字符序列:\n");
    if raw_chars.len() <= heading.len() {
        extend_str(&mut out, "文本中未发现零宽字符。");
    } else {
        extend_chars(&mut out, raw_chars.as_slice());
    }
    ToolCallResult::success_with(string_from_chars(out.as_slice()))
}

/// The text of a tool is either given in place or read from a file.
pub enum TextSource<'a> {
    File(&'a str),
    Inline(&'a str),
    Missing,
}

/// Where the text of a tool comes from: the file, if one is named;
/// otherwise the text given in place.
pub fn text_source<'a>(file_path: Option<&'a str>, text: Option<&'a str>) -> (r: TextSource<'a>)
    ensures
        match r {
            TextSource::File(p) => file_path == Some(p),
            TextSource::Inline(t) => file_path is None && text == Some(t),
            TextSource::Missing => file_path is None && text is None,
        },
{
    match file_path {
        Some(p) => TextSource::File(p),
        None => match text {
            Some(t) => TextSource::Inline(t),
            None => TextSource::Missing,
        },
    }
}

/// The error of a tool that was given neither a text nor a file.
pub fn missing_text() -> (r: ToolCallResult)
    ensures
        r.is_message("缺少参数: 请提供 text 或 file_path"@, true),
{
    ToolCallResult::error_with("缺少参数: 请提供 text 或 file_path".to_string())
}

/// How many results the report of the decode tool shows.
pub const SHOWN_RESULTS: usize = 10;

/// The entry of the report for the result `r` at place `i`, counted
/// from 0.
pub open spec fn result_entry(i: nat, r: DecodeView) -> Seq<char> {
    "["@ + decimal(i + 1) + "] 方案: "@ + r.method + "\n    得分: "@ + one_decimal(
        r.score.spec_tenths(),
    ) + "\n    结果: "@ + r.decoded + "\n\n"@
}

/// The entries of the report for the first `n` of `results`.
pub open spec fn result_entries(results: Seq<DecodeView>, n: nat) -> Seq<char>
    decreases n,
{
    if n == 0 {
        Seq::empty()
    } else {
        result_entries(results, (n - 1) as nat) + result_entry((n - 1) as nat, results[n - 1])
    }
}

/// The report of the decode tool on `results`: the note that nothing was
/// found, or how many results there are, the first ten of them, and the
/// text of the first.
pub open spec fn spec_decode_report(file_path: Option<Seq<char>>, results: Seq<DecodeView>)
    -> Seq<char> {
    if results.len() == 0 {
        "未找到有效解码结果。请确认文本中包含零宽字符隐写信息。"@
    } else {
        file_line(file_path) + "找到 "@ + decimal(results.len()) + " 个可能的解码结果（按置信度排序）:\n\n"@
            + result_entries(results, at_most(results.len(), SHOWN_RESULTS as nat)) + "★ 最佳结果: "@
            + results[0].decoded + "\n"@
    }
}

/// The method of the decode tool where none is named.
pub open spec fn decode_method_or_default(method: Option<&str>) -> DecodeMethod {
    match method {
        Some(m) => spec_decode_method(m@),
        None => DecodeMethod::Auto,
    }
}

/// The decode tool: decodes `text` with the method called `method`
/// (`auto` if none is named) and reports what it found.
pub fn exec_decode(file_path: Option<&str>, text: &str, method: Option<&str>) -> (r:
    ToolCallResult)
    ensures
        r.is_message(
            spec_decode_report(
                text_of(file_path),
                spec_decode_with(text@, decode_method_or_default(method)),
            ),
            false,
        ),
{
    let results = match method {
        Some(m) => decode_with(text, m),
        None => auto_decode(text),
    };
    assert(views(results@) == spec_decode_with(text@, decode_method_or_default(method)));
    assert(views(results@).len() == results@.len());
    if results.len() == 0 {
        return ToolCallResult::success_with(
            "未找到有效解码结果。请确认文本中包含零宽字符隐写信息。".to_string(),
        );
    }
    let mut out: Vec<char> = Vec::new();
    push_file_line(&mut out, file_path);
    extend_str(&mut out, "找到 ");
    push_decimal(&mut out, results.len());
    extend_str(&mut out, " 个可能的解码结果（按置信度排序）:\n\n");
    let shown: usize = if results.len() < SHOWN_RESULTS {
        results.len()
    } else {
        SHOWN_RESULTS
    };
    let ghost head = out@;
    let ghost all = views(results@);
    let mut i: usize = 0;
    assert(head =~= file_line(text_of(file_path)) + "找到 "@ + decimal(all.len())
        + " 个可能的解码结果（按置信度排序）:\n\n"@);
    while i < shown
        invariant
            i <= shown <= results.len(),
            shown <= SHOWN_RESULTS,
            all == views(results@),
            all_wf(results@),
            out@ == head + result_entries(all, i as nat),
            head == file_line(text_of(file_path)) + "找到 "@ + decimal(all.len())
                + " 个可能的解码结果（按置信度排序）:\n\n"@,
        decreases shown - i,
    {
        let ghost before = out@;
        extend_str(&mut out, "[");
        push_decimal(&mut out, i + 1);
        extend_str(&mut out, "] 方案: ");
        extend_str(&mut out, results[i].method.as_str());
        extend_str(&mut out, "\n    得分: ");
        push_one_decimal(&mut out, results[i].score.tenths() as u64);
        extend_str(&mut out, "\n    结果: ");
        extend_str(&mut out, results[i].decoded.as_str());
        extend_str(&mut out, "\n\n");
        i += 1;
    }
    extend_str(&mut out, "★ 最佳结果: ");
    extend_str(&mut out, results[0].decoded.as_str());
    extend_str(&mut out, "\n");
    ToolCallResult::success_with(string_from_chars(out.as_slice()))
}

/// The text `s` as the standard library shows it for debugging: in double
/// quotes, with escapes for what does not print.
pub uninterp spec fn debug_repr(s: Seq<char>) -> Seq<char>;

/// `<str as Debug>::fmt`, which depends on the characters of the string
/// alone.
#[verifier::external_body]
fn debug_text(s: &str) -> (r: String)
    ensures
        r@ == debug_repr(s@),
{
    format!("{:?}", s)
}

/// What the encode tool made.
pub struct Encoded {
    /// The encoded text.
    pub text: String,
    /// The report about it.
    pub report: String,
}

/// The report of the encode tool: the method, the message, the length of
/// the encoded text in characters, its debugging form `repr`, and the
/// encoded text itself.
pub open spec fn encode_report_text(
    method: Seq<char>,
    message: Seq<char>,
    encoded: Seq<char>,
    repr: Seq<char>,
) -> Seq<char> {
    "编码方法: "@ + method + "\n"@ + "消息: "@ + message + "\n"@ + "编码后长度: "@ + decimal(
        encoded.len(),
    ) + " 字符\n"@ + "编码结果（repr）: "@ + repr + "\n"@ + "\n编码文本:\n"@ + encoded + "\n"@
}

/// The report of the encode tool, with the encoded text as the standard
/// library shows it for debugging.
pub open spec fn spec_encode_report(method: Seq<char>, message: Seq<char>, encoded: Seq<char>)
    -> Seq<char> {
    encode_report_text(method, message, encoded, debug_repr(encoded))
}

/// The report of the encode tool on the text `encoded`, which the method
/// called `method` made of `message` and of which `repr` is the
/// debugging form.
pub fn encode_report(method: &str, message: &str, encoded: &str, repr: &str) -> (r: String)
    ensures
        r@ == encode_report_text(method@, message@, encoded@, repr@),
{
    let encoded_chars = to_chars(encoded);
    let mut out: Vec<char> = Vec::new();
    extend_str(&mut out, "编码方法: ");
    extend_str(&mut out, method);
    extend_str(&mut out, "\n");
    extend_str(&mut out, "消息: ");
    extend_str(&mut out, message);
    extend_str(&mut out, "\n");
    extend_str(&mut out, "编码后长度: ");
    push_decimal(&mut out, encoded_chars.len());
    extend_str(&mut out, " 字符\n");
    extend_str(&mut out, "编码结果（repr）: ");
    extend_str(&mut out, repr);
    extend_str(&mut out, "\n");
    extend_str(&mut out, "\n编码文本:\n");
    extend_chars(&mut out, encoded_chars.as_slice());
    extend_str(&mut out, "\n");
    string_from_chars(out.as_slice())
}

/// The name of the encoding method where none is named.
pub open spec fn encode_method_name(method: Option<&str>) -> Seq<char> {
    match method {
        Some(m) => m@,
        None => "binary"@,
    }
}

/// The encode tool: encodes `message` with the method called `method`
/// (`binary` if none is named) into `cover`. Without a message, or with
/// an unknown method, the result is an error.
pub fn exec_encode(message: Option<&str>, method: Option<&str>, cover: &str) -> (r: Result<
    Encoded,
    ToolCallResult,
>)
    ensures
        match r {
            Ok(e) => {
                &&& message is Some
                &&& spec_encode_method(encode_method_name(method)) is Some
                &&& e.text@ == spec_encode_with(
                    message->0@,
                    spec_encode_method(encode_method_name(method))->0,
                    cover@,
                )
                &&& e.report@ == spec_encode_report(
                    encode_method_name(method),
                    message->0@,
                    e.text@,
                )
            },
            Err(e) => if message is None {
                e.is_message("缺少参数: message"@, true)
            } else {
                &&& spec_encode_method(encode_method_name(method)) is None
                &&& e.is_message("未知编码方法: "@ + encode_method_name(method), true)
            },
        },
{
    let message: &str = match message {
        Some(m) => m,
        None => {
            return Err(ToolCallResult::error_with("缺少参数: message".to_string()));
        },
    };
    let method: &str = match method {
        Some(m) => m,
        None => "binary",
    };
    let encoded = match encode_with(message, method, cover) {
        Some(e) => e,
        None => {
            let mut text: Vec<char> = Vec::new();
            extend_str(&mut text, "未知编码方法: ");
            extend_str(&mut text, method);
            return Err(ToolCallResult::error_with(string_from_chars(text.as_slice())));
        },
    };
    let repr = debug_text(encoded.as_str());
    let report = encode_report(method, message, encoded.as_str(), repr.as_str());
    Ok(Encoded { text: encoded, report })
}

/// The line that the encode tool adds to its report once the encoded
/// text is written to the file at `path`.
pub fn written_line(path: &str) -> (r: String)
    ensures
        r@ == "\n✓ 已写入文件: "@ + path@ + "\n"@,
{
    let mut out: Vec<char> = Vec::new();
    extend_str(&mut out, "\n✓ 已写入文件: ");
    extend_str(&mut out, path);
    extend_str(&mut out, "\n");
    string_from_chars(out.as_slice())
}

/// The tool that lists all known characters.
pub fn exec_list_chars() -> (r: ToolCallResult)
    ensures
        r.is_message(spec_list_chars(), false),
{
    ToolCallResult::success_with(list_chars())
}

/// The tool that lists the built-in presets.
pub fn exec_list_presets() -> (r: ToolCallResult)
    ensures
        r.is_message(spec_list_presets(), false),
{
    ToolCallResult::success_with(list_presets())
}

} // verus!
