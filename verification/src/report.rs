//! Plain-text reports: the analysis of a text, the raw sequence of its
//! zero-width characters, and the lists of known characters and presets.

use vstd::prelude::*;
use crate::analysis::{spec_distribution, visible_count, zero_width_only, Analysis};
use crate::chars::{
    all_zero_width_chars, catalog_codepoints, catalog_group, catalog_name, catalog_position,
    category_label, is_catalog_entry, is_unicode_tag, lemma_catalog_position, spec_is_unicode_tag,
    ZeroWidthChar, CATALOG_LEN,
};
use crate::decode::{joined_labels, push_joined_labels};
use crate::presets::{
    encoding_presets, is_preset_entry, preset_chars, preset_description, preset_key, preset_name,
    PRESET_COUNT,
};
use crate::ranking::{code_ranking, codes_of, rank_entries};
use crate::render::{code_label, decimal, pad_left, push_code_label, push_decimal, push_numeral};
use crate::text::{extend_str, string_from_chars, to_chars};

verus! {

/// The name that reports give the code point `cp`: its catalog name, or
/// `UNICODE TAG` if it is not catalogued.
pub open spec fn display_name(cp: u32) -> Seq<char> {
    if catalog_position(cp) >= 0 {
        catalog_name(catalog_position(cp))
    } else {
        "UNICODE TAG"@
    }
}

/// Whether `catalog` is the catalog.
pub open spec fn is_catalog(catalog: Seq<ZeroWidthChar>) -> bool {
    &&& catalog.len() == CATALOG_LEN
    &&& forall|i: int| 0 <= i < CATALOG_LEN ==> is_catalog_entry(#[trigger] catalog[i], i)
}

/// The catalog position of the code point `cp`, if it is catalogued.
fn find_entry(catalog: &Vec<ZeroWidthChar>, cp: u32) -> (r: Option<usize>)
    requires
        is_catalog(catalog@),
    ensures
        match r {
            Some(i) => i == catalog_position(cp),
            None => catalog_position(cp) < 0,
        },
{
    proof {
        lemma_catalog_position(cp);
    }
    let mut i: usize = 0;
    while i < catalog.len()
        invariant
            i <= catalog.len(),
            is_catalog(catalog@),
            forall|k: int| 0 <= k < i ==> #[trigger] catalog_codepoints()[k] != cp,
        decreases catalog.len() - i,
    {
        if catalog[i].codepoint == cp {
            return Some(i);
        }
        i += 1;
    }
    None
}

/// Appends the display name of `cp` to `out`.
fn push_display_name(out: &mut Vec<char>, catalog: &Vec<ZeroWidthChar>, cp: u32)
    requires
        is_catalog(catalog@),
    ensures
        final(out)@ == old(out)@ + display_name(cp),
{
    match find_entry(catalog, cp) {
        Some(i) => {
            extend_str(out, catalog[i].name);
        },
        None => {
            extend_str(out, "UNICODE TAG");
        },
    }
}

// ---------------------------------------------------------------------
// The analysis report
// ---------------------------------------------------------------------

/// One line of the distribution: the code point, its name, and how often
/// it occurs.
pub open spec fn distribution_line(cp: u32, count: usize) -> Seq<char> {
    "  "@ + code_label(cp) + " "@ + display_name(cp) + ": "@ + decimal(count as nat) + " 次\n"@
}

/// The lines of the distribution for the code points `codes`.
pub open spec fn distribution_lines(codes: Seq<u32>, dist: Map<u32, usize>) -> Seq<char>
    decreases codes.len(),
{
    if codes.len() == 0 {
        Seq::empty()
    } else {
        distribution_lines(codes.drop_last(), dist) + distribution_line(
            codes.last(),
            dist[codes.last()],
        )
    }
}

/// The four counts that open the report.
pub open spec fn counts_part(total: nat, visible: nat, zero_width: nat, unique: nat) -> Seq<char> {
    "总字符数: "@ + decimal(total) + "\n"@ + "可见字符数: "@ + decimal(visible) + "\n"@
        + "零宽字符数: "@ + decimal(zero_width) + "\n"@ + "零宽字符种类: "@ + decimal(unique)
        + "\n"@
}

/// The report on the given counts and distribution: the four counts,
/// then either the note that no zero-width character was found, or the
/// distribution, most frequent code point first.
pub open spec fn report_text(
    total: nat,
    visible: nat,
    zero_width: nat,
    unique: nat,
    dist: Map<u32, usize>,
) -> Seq<char> {
    if zero_width == 0 {
        counts_part(total, visible, zero_width, unique) + "未检测到零宽字符!\n"@
    } else {
        counts_part(total, visible, zero_width, unique) + "\n字符分布:\n"@ + distribution_lines(
            code_ranking(dist),
            dist,
        )
    }
}

/// The report on the analysis `a`.
pub open spec fn spec_format_analysis(a: Analysis) -> Seq<char> {
    report_text(
        a.total_chars as nat,
        a.visible_chars as nat,
        a.zero_width_count as nat,
        a.unique_zw_chars as nat,
        a.distribution@,
    )
}

/// The report on the analysis of `text`.
pub open spec fn spec_analysis_report(text: Seq<char>) -> Seq<char> {
    report_text(
        text.len(),
        visible_count(text),
        zero_width_only(text).len(),
        spec_distribution(text).len(),
        spec_distribution(text),
    )
}

/// The report on an analysis.
pub fn format_analysis(analysis: &Analysis) -> (r: String)
    ensures
        r@ == spec_format_analysis(*analysis),
        forall|text: Seq<char>|
            analysis.describes(text) ==> r@ == #[trigger] spec_analysis_report(text),
{
    let mut out: Vec<char> = Vec::new();
    extend_str(&mut out, "总字符数: ");
    push_decimal(&mut out, analysis.total_chars);
    extend_str(&mut out, "\n");
    extend_str(&mut out, "可见字符数: ");
    push_decimal(&mut out, analysis.visible_chars);
    extend_str(&mut out, "\n");
    extend_str(&mut out, "零宽字符数: ");
    push_decimal(&mut out, analysis.zero_width_count);
    extend_str(&mut out, "\n");
    extend_str(&mut out, "零宽字符种类: ");
    push_decimal(&mut out, analysis.unique_zw_chars);
    extend_str(&mut out, "\n");
    assert(out@ =~= counts_part(
        analysis.total_chars as nat,
        analysis.visible_chars as nat,
        analysis.zero_width_count as nat,
        analysis.unique_zw_chars as nat,
    ));
    if analysis.zero_width_count == 0 {
        extend_str(&mut out, "未检测到零宽字符!\n");
        return string_from_chars(out.as_slice());
    }
    extend_str(&mut out, "\n字符分布:\n");
    let catalog = all_zero_width_chars();
    let ranked = rank_entries(&analysis.distribution);
    let ghost head = out@;
    let ghost codes = codes_of(ranked@);
    let ghost dist = analysis.distribution@;
    let mut i: usize = 0;
    assert(out@ =~= head + distribution_lines(codes.take(0), dist));
    while i < ranked.len()
        invariant
            i <= ranked.len(),
            is_catalog(catalog@),
            codes == codes_of(ranked@),
            forall|a: int| 0 <= a < ranked@.len() ==> dist[(#[trigger] ranked@[a]).0] == ranked@[a].1,
            out@ == head + distribution_lines(codes.take(i as int), dist),
        decreases ranked.len() - i,
    {
        let cp: u32 = ranked[i].0;
        let count: usize = ranked[i].1;
        let ghost before = out@;
        proof {
            assert(codes.take(i + 1).drop_last() == codes.take(i as int));
        }
        extend_str(&mut out, "  ");
        push_code_label(&mut out, cp);
        extend_str(&mut out, " ");
        push_display_name(&mut out, &catalog, cp);
        extend_str(&mut out, ": ");
        push_decimal(&mut out, count);
        extend_str(&mut out, " 次\n");
        assert(out@ =~= before + distribution_line(cp, count));
        i += 1;
    }
    assert(codes.take(ranked.len() as int) == codes);
    string_from_chars(out.as_slice())
}

// ---------------------------------------------------------------------
// The raw dump
// ---------------------------------------------------------------------

/// The character that a dump shows for the ASCII value `ascii` of a tag:
/// the character itself if it is printable ASCII, `?` otherwise.
pub open spec fn tag_display(ascii: u32) -> char {
    if 32 <= ascii < 127 {
        ascii as char
    } else {
        '?'
    }
}

/// The line of the dump for the character `c` at position `i`: empty
/// unless `c` is zero-width.
pub open spec fn dump_line(i: nat, c: char) -> Seq<char> {
    let cp = c as u32;
    let place = "["@ + pad_left(decimal(i), 4, ' ') + "] "@ + code_label(cp);
    if catalog_position(cp) >= 0 {
        place + " "@ + catalog_name(catalog_position(cp)) + "\n"@
    } else if spec_is_unicode_tag(c) {
        place + " UNICODE TAG (ASCII "@ + decimal((cp - 0xE0000) as nat) + " = '"@ + seq![
            tag_display((cp - 0xE0000) as u32),
        ] + "')\n"@
    } else {
        Seq::empty()
    }
}

/// The lines of the dump for the first `n` characters of `text`.
pub open spec fn dump_lines(text: Seq<char>, n: nat) -> Seq<char>
    decreases n,
{
    if n == 0 {
        Seq::empty()
    } else {
        dump_lines(text, (n - 1) as nat) + dump_line((n - 1) as nat, text[n - 1])
    }
}

/// The raw dump of `text`: a heading, then one line for each zero-width
/// character, with its position among all characters of the text.
pub open spec fn spec_dump_raw(text: Seq<char>) -> Seq<char> {
    "原始零宽字符序列:\n"@ + dump_lines(text, text.len())
}

/// The raw sequence of the zero-width characters of `text`, one line
/// each.
pub fn dump_raw(text: &str) -> (r: String)
    ensures
        r@ == spec_dump_raw(text@),
{
    let chars = to_chars(text);
    let catalog = all_zero_width_chars();
    let mut out: Vec<char> = Vec::new();
    extend_str(&mut out, "原始零宽字符序列:\n");
    let ghost head = out@;
    let mut i: usize = 0;
    assert(out@ =~= head + dump_lines(text@, 0));
    while i < chars.len()
        invariant
            i <= chars.len(),
            chars@ == text@,
            is_catalog(catalog@),
            head == "原始零宽字符序列:\n"@,
            out@ == head + dump_lines(text@, i as nat),
        decreases chars.len() - i,
    {
        let ch: char = chars[i];
        let cp: u32 = ch as u32;
        let ghost before = out@;
        match find_entry(&catalog, cp) {
            Some(k) => {
                extend_str(&mut out, "[");
                push_numeral(&mut out, i as u64, false, 4, ' ');
                extend_str(&mut out, "] ");
                push_code_label(&mut out, cp);
                extend_str(&mut out, " ");
                extend_str(&mut out, catalog[k].name);
                extend_str(&mut out, "\n");
                assert(out@ =~= before + dump_line(i as nat, ch));
            },
            None => {
                if is_unicode_tag(ch) {
                    let ascii: u32 = cp - 0xE0000;
                    let display: char = if 32 <= ascii && ascii < 127 {
                        match char::from_u32(ascii) {
                            Some(c) => c,
                            None => '?',
                        }
                    } else {
                        '?'
                    };
                    extend_str(&mut out, "[");
                    push_numeral(&mut out, i as u64, false, 4, ' ');
                    extend_str(&mut out, "] ");
                    push_code_label(&mut out, cp);
                    extend_str(&mut out, " UNICODE TAG (ASCII ");
                    push_decimal(&mut out, ascii as usize);
                    extend_str(&mut out, " = '");
                    out.push(display);
                    extend_str(&mut out, "')\n");
                    assert(out@ =~= before + dump_line(i as nat, ch));
                } else {
                    assert(out@ =~= before + dump_line(i as nat, ch));
                }
            },
        }
        i += 1;
    }
    string_from_chars(out.as_slice())
}

// ---------------------------------------------------------------------
// The lists
// ---------------------------------------------------------------------

/// The lines of the list for the first `n` entries of the catalog: a
/// heading in front of the first entry of each category, and one line for
/// each entry.
pub open spec fn catalog_lines(n: nat) -> Seq<char>
    decreases n,
{
    if n == 0 {
        Seq::empty()
    } else {
        let i = n - 1;
        let heading = if i == 0 || catalog_group(i) != catalog_group(i - 1) {
            "\n["@ + category_label(catalog_group(i)) + "]\n"@
        } else {
            Seq::empty()
        };
        catalog_lines(i as nat) + heading + "  "@ + code_label(catalog_codepoints()[i]) + "  "@
            + catalog_name(i) + "\n"@
    }
}

/// The list of all known characters.
pub open spec fn spec_list_chars() -> Seq<char> {
    "零宽/不可见 Unicode 字符大全:\n\n"@ + catalog_lines(CATALOG_LEN as nat)
        + "\nUnicode Tags: U+E0001 - U+E007F (128个，映射到 ASCII)\n\n共计 "@ + decimal(
        CATALOG_LEN as nat,
    ) + " + 128 = "@ + decimal((CATALOG_LEN + 128) as nat) + " 个字符\n"@
}

/// The category that catalog position `i` belongs to.
fn group_of(i: usize) -> (g: usize)
    ensures
        g == catalog_group(i as int),
{
    if i < 5 {
        0
    } else if i < 16 {
        1
    } else if i < 20 {
        2
    } else if i < 21 {
        3
    } else if i < 30 {
        4
    } else if i < 46 {
        5
    } else if i < 52 {
        6
    } else {
        7
    }
}

/// The list of all known zero-width characters, by category.
pub fn list_chars() -> (r: String)
    ensures
        r@ == spec_list_chars(),
{
    let all = all_zero_width_chars();
    let mut out: Vec<char> = Vec::new();
    extend_str(&mut out, "零宽/不可见 Unicode 字符大全:\n\n");
    let ghost head = out@;
    let mut i: usize = 0;
    assert(out@ =~= head + catalog_lines(0));
    while i < all.len()
        invariant
            i <= all.len(),
            is_catalog(all@),
            out@ == head + catalog_lines(i as nat),
        decreases all.len() - i,
    {
        let ghost before = out@;
        assert(is_catalog_entry(all@[i as int], i as int));
        if i == 0 || group_of(i) != group_of(i - 1) {
            extend_str(&mut out, "\n[");
            extend_str(&mut out, all[i].category);
            extend_str(&mut out, "]\n");
        }
        extend_str(&mut out, "  ");
        push_code_label(&mut out, all[i].codepoint);
        extend_str(&mut out, "  ");
        extend_str(&mut out, all[i].name);
        extend_str(&mut out, "\n");
        i += 1;
    }
    extend_str(&mut out, "\nUnicode Tags: U+E0001 - U+E007F (128个，映射到 ASCII)\n\n共计 ");
    push_decimal(&mut out, all.len());
    extend_str(&mut out, " + 128 = ");
    push_decimal(&mut out, all.len() + 128);
    extend_str(&mut out, " 个字符\n");
    string_from_chars(out.as_slice())
}

/// The entry of the list for preset `i`: its key, name, description and
/// characters.
pub open spec fn preset_block(i: int) -> Seq<char> {
    "["@ + preset_key(i) + "]\n"@ + "  名称: "@ + preset_name(i) + "\n"@ + "  说明: "@
        + preset_description(i) + "\n"@ + "  字符: "@ + joined_labels(preset_chars(i), ' ')
        + "\n\n"@
}

/// The entries of the list for the first `n` presets.
pub open spec fn preset_blocks(n: nat) -> Seq<char>
    decreases n,
{
    if n == 0 {
        Seq::empty()
    } else {
        preset_blocks((n - 1) as nat) + preset_block(n - 1)
    }
}

/// The list of the built-in presets.
pub open spec fn spec_list_presets() -> Seq<char> {
    "编码预设方案:\n\n"@ + preset_blocks(PRESET_COUNT as nat)
}

/// The list of the built-in presets.
pub fn list_presets() -> (r: String)
    ensures
        r@ == spec_list_presets(),
{
    let presets = encoding_presets();
    let mut out: Vec<char> = Vec::new();
    extend_str(&mut out, "编码预设方案:\n\n");
    let ghost head = out@;
    let mut i: usize = 0;
    while i < presets.len()
        invariant
            i <= presets.len(),
            presets@.len() == PRESET_COUNT,
            forall|k: int| 0 <= k < PRESET_COUNT ==> is_preset_entry(#[trigger] presets@[k], k),
            out@ == head + preset_blocks(i as nat),
        decreases presets.len() - i,
    {
        let ghost before = out@;
        extend_str(&mut out, "[");
        extend_str(&mut out, presets[i].0);
        extend_str(&mut out, "]\n");
        extend_str(&mut out, "  名称: ");
        extend_str(&mut out, presets[i].1.name);
        extend_str(&mut out, "\n");
        extend_str(&mut out, "  说明: ");
        extend_str(&mut out, presets[i].1.description);
        extend_str(&mut out, "\n");
        extend_str(&mut out, "  字符: ");
        push_joined_labels(&mut out, presets[i].1.chars.as_slice(), ' ');
        extend_str(&mut out, "\n\n");
        assert(out@ =~= before + preset_block(i as int));
        i += 1;
    }
    string_from_chars(out.as_slice())
}

} // verus!
