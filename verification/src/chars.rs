//! The catalog of zero-width and invisible code points, and the predicates
//! that classify a character against it.
//!
//! Classification is a handful of range comparisons; the catalog itself is
//! only walked to list it or to look up a display name.

use vstd::prelude::*;

verus! {

/// One catalogued invisible character.
#[derive(Debug, Clone)]
pub struct ZeroWidthChar {
    pub ch: char,
    pub codepoint: u32,
    pub name: &'static str,
    pub category: &'static str,
}

/// First code point of the Unicode Tag block.
pub const UNICODE_TAGS_START: u32 = 0xE0000;

/// Last code point of the Unicode Tag block.
pub const UNICODE_TAGS_END: u32 = 0xE007F;

/// Number of entries in the catalog.
pub const CATALOG_LEN: usize = 54;

/// Whether `ch` lies in the Unicode Tag block `U+E0000..=U+E007F`.
pub open spec fn spec_is_unicode_tag(ch: char) -> bool {
    0xE0000 <= ch as u32 <= 0xE007F
}

/// Whether the code point `cp` belongs to one of the catalogued ranges
/// (the Unicode Tag block is not among them).
pub open spec fn in_catalog_ranges(cp: u32) -> bool {
    ||| 0x200B <= cp <= 0x200F
    ||| 0x202A <= cp <= 0x202E
    ||| 0x2060 <= cp <= 0x2064
    ||| 0x2066 <= cp <= 0x2069
    ||| cp == 0xFEFF
    ||| cp == 0x180E
    ||| cp == 0x00AD
    ||| cp == 0x034F
    ||| cp == 0x061C
    ||| 0x115F <= cp <= 0x1160
    ||| 0x17B4 <= cp <= 0x17B5
    ||| cp == 0x3164
    ||| cp == 0xFFA0
    ||| 0xFE00 <= cp <= 0xFE0F
    ||| 0x206A <= cp <= 0x206F
    ||| 0x2028 <= cp <= 0x2029
}

/// Whether `ch` is a zero-width or invisible character: one of the
/// catalogued ranges, or a Unicode Tag.
pub open spec fn spec_is_zero_width(ch: char) -> bool {
    in_catalog_ranges(ch as u32) || spec_is_unicode_tag(ch)
}

/// The code points of the catalog, in catalog order.
pub open spec fn catalog_codepoints() -> Seq<u32> {
    seq![
        0x200B, 0x200C, 0x200D, 0xFEFF, 0x2060, 0x200E,
        0x200F, 0x202A, 0x202B, 0x202C, 0x202D, 0x202E,
        0x2066, 0x2067, 0x2068, 0x2069, 0x2061, 0x2062,
        0x2063, 0x2064, 0x180E, 0x00AD, 0x034F, 0x061C,
        0x115F, 0x1160, 0x17B4, 0x17B5, 0x3164, 0xFFA0,
        0xFE00, 0xFE01, 0xFE02, 0xFE03, 0xFE04, 0xFE05,
        0xFE06, 0xFE07, 0xFE08, 0xFE09, 0xFE0A, 0xFE0B,
        0xFE0C, 0xFE0D, 0xFE0E, 0xFE0F, 0x206A, 0x206B,
        0x206C, 0x206D, 0x206E, 0x206F, 0x2028, 0x2029,
    ]
}

/// The category (numbered from 0 in catalog order) that catalog position `i`
/// belongs to. Categories are contiguous runs of positions.
pub open spec fn catalog_group(i: int) -> int {
    if i < 5 {
        0
    }     else if i < 16 {
        1
    }     else if i < 20 {
        2
    }     else if i < 21 {
        3
    }     else if i < 30 {
        4
    }     else if i < 46 {
        5
    }     else if i < 52 {
        6
    } else {
        7
    }
}

/// The display label of category `g`.
pub open spec fn category_label(g: int) -> Seq<char> {
    if g == 0 {
        "核心零宽"@
    }     else if g == 1 {
        "方向控制"@
    }     else if g == 2 {
        "不可见数学"@
    }     else if g == 3 {
        "蒙古文"@
    }     else if g == 4 {
        "格式字符"@
    }     else if g == 5 {
        "变体选择器"@
    }     else if g == 6 {
        "已弃用格式"@
    } else {
        "分隔符"@
    }
}

/// The display name of the entry at catalog position `i`.
pub open spec fn catalog_name(i: int) -> Seq<char> {
    if i == 0 {
        "ZERO WIDTH SPACE (ZWSP)"@
    }     else if i == 1 {
        "ZERO WIDTH NON-JOINER (ZWNJ)"@
    }     else if i == 2 {
        "ZERO WIDTH JOINER (ZWJ)"@
    }     else if i == 3 {
        "ZERO WIDTH NO-BREAK SPACE / BOM"@
    }     else if i == 4 {
        "WORD JOINER (WJ)"@
    }     else if i == 5 {
        "LEFT-TO-RIGHT MARK (LRM)"@
    }     else if i == 6 {
        "RIGHT-TO-LEFT MARK (RLM)"@
    }     else if i == 7 {
        "LEFT-TO-RIGHT EMBEDDING (LRE)"@
    }     else if i == 8 {
        "RIGHT-TO-LEFT EMBEDDING (RLE)"@
    }     else if i == 9 {
        "POP DIRECTIONAL FORMATTING (PDF)"@
    }     else if i == 10 {
        "LEFT-TO-RIGHT OVERRIDE (LRO)"@
    }     else if i == 11 {
        "RIGHT-TO-LEFT OVERRIDE (RLO)"@
    }     else if i == 12 {
        "LEFT-TO-RIGHT ISOLATE (LRI)"@
    }     else if i == 13 {
        "RIGHT-TO-LEFT ISOLATE (RLI)"@
    }     else if i == 14 {
        "FIRST STRONG ISOLATE (FSI)"@
    }     else if i == 15 {
        "POP DIRECTIONAL ISOLATE (PDI)"@
    }     else if i == 16 {
        "FUNCTION APPLICATION"@
    }     else if i == 17 {
        "INVISIBLE TIMES"@
    }     else if i == 18 {
        "INVISIBLE SEPARATOR"@
    }     else if i == 19 {
        "INVISIBLE PLUS"@
    }     else if i == 20 {
        "MONGOLIAN VOWEL SEPARATOR"@
    }     else if i == 21 {
        "SOFT HYPHEN (SHY)"@
    }     else if i == 22 {
        "COMBINING GRAPHEME JOINER (CGJ)"@
    }     else if i == 23 {
        "ARABIC LETTER MARK (ALM)"@
    }     else if i == 24 {
        "HANGUL CHOSEONG FILLER"@
    }     else if i == 25 {
        "HANGUL JUNGSEONG FILLER"@
    }     else if i == 26 {
        "KHMER VOWEL INHERENT AQ"@
    }     else if i == 27 {
        "KHMER VOWEL INHERENT AA"@
    }     else if i == 28 {
        "HANGUL FILLER"@
    }     else if i == 29 {
        "HALFWIDTH HANGUL FILLER"@
    }     else if i == 30 {
        "VARIATION SELECTOR-1"@
    }     else if i == 31 {
        "VARIATION SELECTOR-2"@
    }     else if i == 32 {
        "VARIATION SELECTOR-3"@
    }     else if i == 33 {
        "VARIATION SELECTOR-4"@
    }     else if i == 34 {
        "VARIATION SELECTOR-5"@
    }     else if i == 35 {
        "VARIATION SELECTOR-6"@
    }     else if i == 36 {
        "VARIATION SELECTOR-7"@
    }     else if i == 37 {
        "VARIATION SELECTOR-8"@
    }     else if i == 38 {
        "VARIATION SELECTOR-9"@
    }     else if i == 39 {
        "VARIATION SELECTOR-10"@
    }     else if i == 40 {
        "VARIATION SELECTOR-11"@
    }     else if i == 41 {
        "VARIATION SELECTOR-12"@
    }     else if i == 42 {
        "VARIATION SELECTOR-13"@
    }     else if i == 43 {
        "VARIATION SELECTOR-14"@
    }     else if i == 44 {
        "VARIATION SELECTOR-15"@
    }     else if i == 45 {
        "VARIATION SELECTOR-16"@
    }     else if i == 46 {
        "INHIBIT SYMMETRIC SWAPPING"@
    }     else if i == 47 {
        "ACTIVATE SYMMETRIC SWAPPING"@
    }     else if i == 48 {
        "INHIBIT ARABIC FORM SHAPING"@
    }     else if i == 49 {
        "ACTIVATE ARABIC FORM SHAPING"@
    }     else if i == 50 {
        "NATIONAL DIGIT SHAPES"@
    }     else if i == 51 {
        "NOMINAL DIGIT SHAPES"@
    }     else if i == 52 {
        "LINE SEPARATOR"@
    } else {
        "PARAGRAPH SEPARATOR"@
    }
}

/// What the catalog holds at position `i`.
pub open spec fn is_catalog_entry(e: ZeroWidthChar, i: int) -> bool {
    &&& e.codepoint == catalog_codepoints()[i]
    &&& e.ch as u32 == e.codepoint
    &&& e.name@ == catalog_name(i)
    &&& e.category@ == category_label(catalog_group(i))
}

/// Whether `ch` lies in the Unicode Tag block `U+E0000..=U+E007F`.
pub fn is_unicode_tag(ch: char) -> (r: bool)
    ensures
        r == spec_is_unicode_tag(ch),
{
    let cp: u32 = ch as u32;
    cp >= UNICODE_TAGS_START && cp <= UNICODE_TAGS_END
}

/// Whether `ch` is a known zero-width or invisible character. Decided by
/// range comparisons alone.
pub fn is_zero_width(ch: char) -> (r: bool)
    ensures
        r == spec_is_zero_width(ch),
{
    let cp: u32 = ch as u32;
    (0x200B <= cp && cp <= 0x200F) || (0x202A <= cp && cp <= 0x202E) || (0x2060 <= cp && cp
        <= 0x2064) || (0x2066 <= cp && cp <= 0x2069) || cp == 0xFEFF || cp == 0x180E || cp == 0x00AD
        || cp == 0x034F || cp == 0x061C || (0x115F <= cp && cp <= 0x1160) || (0x17B4 <= cp && cp
        <= 0x17B5) || cp == 0x3164 || cp == 0xFFA0 || (0xFE00 <= cp && cp <= 0xFE0F) || (0x206A
        <= cp && cp <= 0x206F) || (0x2028 <= cp && cp <= 0x2029) || is_unicode_tag(ch)
}

/// Every catalogued character, grouped by category in a fixed order.
pub fn all_zero_width_chars() -> (r: Vec<ZeroWidthChar>)
    ensures
        r@.len() == CATALOG_LEN,
        forall|i: int| 0 <= i < CATALOG_LEN ==> is_catalog_entry(#[trigger] r@[i], i),
{
    let mut r: Vec<ZeroWidthChar> = Vec::new();
    // core zero-width characters
    r.push(ZeroWidthChar { ch: '\u{200B}', codepoint: 0x200B, name: "ZERO WIDTH SPACE (ZWSP)", category: "核心零宽" });
    r.push(ZeroWidthChar { ch: '\u{200C}', codepoint: 0x200C, name: "ZERO WIDTH NON-JOINER (ZWNJ)", category: "核心零宽" });
    r.push(ZeroWidthChar { ch: '\u{200D}', codepoint: 0x200D, name: "ZERO WIDTH JOINER (ZWJ)", category: "核心零宽" });
    r.push(ZeroWidthChar { ch: '\u{FEFF}', codepoint: 0xFEFF, name: "ZERO WIDTH NO-BREAK SPACE / BOM", category: "核心零宽" });
    r.push(ZeroWidthChar { ch: '\u{2060}', codepoint: 0x2060, name: "WORD JOINER (WJ)", category: "核心零宽" });
    // directional controls
    r.push(ZeroWidthChar { ch: '\u{200E}', codepoint: 0x200E, name: "LEFT-TO-RIGHT MARK (LRM)", category: "方向控制" });
    r.push(ZeroWidthChar { ch: '\u{200F}', codepoint: 0x200F, name: "RIGHT-TO-LEFT MARK (RLM)", category: "方向控制" });
    r.push(ZeroWidthChar { ch: '\u{202A}', codepoint: 0x202A, name: "LEFT-TO-RIGHT EMBEDDING (LRE)", category: "方向控制" });
    r.push(ZeroWidthChar { ch: '\u{202B}', codepoint: 0x202B, name: "RIGHT-TO-LEFT EMBEDDING (RLE)", category: "方向控制" });
    r.push(ZeroWidthChar { ch: '\u{202C}', codepoint: 0x202C, name: "POP DIRECTIONAL FORMATTING (PDF)", category: "方向控制" });
    r.push(ZeroWidthChar { ch: '\u{202D}', codepoint: 0x202D, name: "LEFT-TO-RIGHT OVERRIDE (LRO)", category: "方向控制" });
    r.push(ZeroWidthChar { ch: '\u{202E}', codepoint: 0x202E, name: "RIGHT-TO-LEFT OVERRIDE (RLO)", category: "方向控制" });
    r.push(ZeroWidthChar { ch: '\u{2066}', codepoint: 0x2066, name: "LEFT-TO-RIGHT ISOLATE (LRI)", category: "方向控制" });
    r.push(ZeroWidthChar { ch: '\u{2067}', codepoint: 0x2067, name: "RIGHT-TO-LEFT ISOLATE (RLI)", category: "方向控制" });
    r.push(ZeroWidthChar { ch: '\u{2068}', codepoint: 0x2068, name: "FIRST STRONG ISOLATE (FSI)", category: "方向控制" });
    r.push(ZeroWidthChar { ch: '\u{2069}', codepoint: 0x2069, name: "POP DIRECTIONAL ISOLATE (PDI)", category: "方向控制" });
    // invisible mathematical operators
    r.push(ZeroWidthChar { ch: '\u{2061}', codepoint: 0x2061, name: "FUNCTION APPLICATION", category: "不可见数学" });
    r.push(ZeroWidthChar { ch: '\u{2062}', codepoint: 0x2062, name: "INVISIBLE TIMES", category: "不可见数学" });
    r.push(ZeroWidthChar { ch: '\u{2063}', codepoint: 0x2063, name: "INVISIBLE SEPARATOR", category: "不可见数学" });
    r.push(ZeroWidthChar { ch: '\u{2064}', codepoint: 0x2064, name: "INVISIBLE PLUS", category: "不可见数学" });
    // the Mongolian vowel separator
    r.push(ZeroWidthChar { ch: '\u{180E}', codepoint: 0x180E, name: "MONGOLIAN VOWEL SEPARATOR", category: "蒙古文" });
    // other invisible format characters
    r.push(ZeroWidthChar { ch: '\u{00AD}', codepoint: 0x00AD, name: "SOFT HYPHEN (SHY)", category: "格式字符" });
    r.push(ZeroWidthChar { ch: '\u{034F}', codepoint: 0x034F, name: "COMBINING GRAPHEME JOINER (CGJ)", category: "格式字符" });
    r.push(ZeroWidthChar { ch: '\u{061C}', codepoint: 0x061C, name: "ARABIC LETTER MARK (ALM)", category: "格式字符" });
    r.push(ZeroWidthChar { ch: '\u{115F}', codepoint: 0x115F, name: "HANGUL CHOSEONG FILLER", category: "格式字符" });
    r.push(ZeroWidthChar { ch: '\u{1160}', codepoint: 0x1160, name: "HANGUL JUNGSEONG FILLER", category: "格式字符" });
    r.push(ZeroWidthChar { ch: '\u{17B4}', codepoint: 0x17B4, name: "KHMER VOWEL INHERENT AQ", category: "格式字符" });
    r.push(ZeroWidthChar { ch: '\u{17B5}', codepoint: 0x17B5, name: "KHMER VOWEL INHERENT AA", category: "格式字符" });
    r.push(ZeroWidthChar { ch: '\u{3164}', codepoint: 0x3164, name: "HANGUL FILLER", category: "格式字符" });
    r.push(ZeroWidthChar { ch: '\u{FFA0}', codepoint: 0xFFA0, name: "HALFWIDTH HANGUL FILLER", category: "格式字符" });
    // variation selectors
    r.push(ZeroWidthChar { ch: '\u{FE00}', codepoint: 0xFE00, name: "VARIATION SELECTOR-1", category: "变体选择器" });
    r.push(ZeroWidthChar { ch: '\u{FE01}', codepoint: 0xFE01, name: "VARIATION SELECTOR-2", category: "变体选择器" });
    r.push(ZeroWidthChar { ch: '\u{FE02}', codepoint: 0xFE02, name: "VARIATION SELECTOR-3", category: "变体选择器" });
    r.push(ZeroWidthChar { ch: '\u{FE03}', codepoint: 0xFE03, name: "VARIATION SELECTOR-4", category: "变体选择器" });
    r.push(ZeroWidthChar { ch: '\u{FE04}', codepoint: 0xFE04, name: "VARIATION SELECTOR-5", category: "变体选择器" });
    r.push(ZeroWidthChar { ch: '\u{FE05}', codepoint: 0xFE05, name: "VARIATION SELECTOR-6", category: "变体选择器" });
    r.push(ZeroWidthChar { ch: '\u{FE06}', codepoint: 0xFE06, name: "VARIATION SELECTOR-7", category: "变体选择器" });
    r.push(ZeroWidthChar { ch: '\u{FE07}', codepoint: 0xFE07, name: "VARIATION SELECTOR-8", category: "变体选择器" });
    r.push(ZeroWidthChar { ch: '\u{FE08}', codepoint: 0xFE08, name: "VARIATION SELECTOR-9", category: "变体选择器" });
    r.push(ZeroWidthChar { ch: '\u{FE09}', codepoint: 0xFE09, name: "VARIATION SELECTOR-10", category: "变体选择器" });
    r.push(ZeroWidthChar { ch: '\u{FE0A}', codepoint: 0xFE0A, name: "VARIATION SELECTOR-11", category: "变体选择器" });
    r.push(ZeroWidthChar { ch: '\u{FE0B}', codepoint: 0xFE0B, name: "VARIATION SELECTOR-12", category: "变体选择器" });
    r.push(ZeroWidthChar { ch: '\u{FE0C}', codepoint: 0xFE0C, name: "VARIATION SELECTOR-13", category: "变体选择器" });
    r.push(ZeroWidthChar { ch: '\u{FE0D}', codepoint: 0xFE0D, name: "VARIATION SELECTOR-14", category: "变体选择器" });
    r.push(ZeroWidthChar { ch: '\u{FE0E}', codepoint: 0xFE0E, name: "VARIATION SELECTOR-15", category: "变体选择器" });
    r.push(ZeroWidthChar { ch: '\u{FE0F}', codepoint: 0xFE0F, name: "VARIATION SELECTOR-16", category: "变体选择器" });
    // deprecated format characters
    r.push(ZeroWidthChar { ch: '\u{206A}', codepoint: 0x206A, name: "INHIBIT SYMMETRIC SWAPPING", category: "已弃用格式" });
    r.push(ZeroWidthChar { ch: '\u{206B}', codepoint: 0x206B, name: "ACTIVATE SYMMETRIC SWAPPING", category: "已弃用格式" });
    r.push(ZeroWidthChar { ch: '\u{206C}', codepoint: 0x206C, name: "INHIBIT ARABIC FORM SHAPING", category: "已弃用格式" });
    r.push(ZeroWidthChar { ch: '\u{206D}', codepoint: 0x206D, name: "ACTIVATE ARABIC FORM SHAPING", category: "已弃用格式" });
    r.push(ZeroWidthChar { ch: '\u{206E}', codepoint: 0x206E, name: "NATIONAL DIGIT SHAPES", category: "已弃用格式" });
    r.push(ZeroWidthChar { ch: '\u{206F}', codepoint: 0x206F, name: "NOMINAL DIGIT SHAPES", category: "已弃用格式" });
    // line and paragraph separators
    r.push(ZeroWidthChar { ch: '\u{2028}', codepoint: 0x2028, name: "LINE SEPARATOR", category: "分隔符" });
    r.push(ZeroWidthChar { ch: '\u{2029}', codepoint: 0x2029, name: "PARAGRAPH SEPARATOR", category: "分隔符" });
    r
}

/// The catalog position of the code point `cp`, if it is catalogued.
pub open spec fn catalog_position(cp: u32) -> int {
    if cp == 0x200B {
        0
    }     else if cp == 0x200C {
        1
    }     else if cp == 0x200D {
        2
    }     else if cp == 0xFEFF {
        3
    }     else if cp == 0x2060 {
        4
    }     else if cp == 0x200E {
        5
    }     else if cp == 0x200F {
        6
    }     else if cp == 0x202A {
        7
    }     else if cp == 0x202B {
        8
    }     else if cp == 0x202C {
        9
    }     else if cp == 0x202D {
        10
    }     else if cp == 0x202E {
        11
    }     else if cp == 0x2066 {
        12
    }     else if cp == 0x2067 {
        13
    }     else if cp == 0x2068 {
        14
    }     else if cp == 0x2069 {
        15
    }     else if cp == 0x2061 {
        16
    }     else if cp == 0x2062 {
        17
    }     else if cp == 0x2063 {
        18
    }     else if cp == 0x2064 {
        19
    }     else if cp == 0x180E {
        20
    }     else if cp == 0x00AD {
        21
    }     else if cp == 0x034F {
        22
    }     else if cp == 0x061C {
        23
    }     else if cp == 0x115F {
        24
    }     else if cp == 0x1160 {
        25
    }     else if cp == 0x17B4 {
        26
    }     else if cp == 0x17B5 {
        27
    }     else if cp == 0x3164 {
        28
    }     else if cp == 0xFFA0 {
        29
    }     else if cp == 0xFE00 {
        30
    }     else if cp == 0xFE01 {
        31
    }     else if cp == 0xFE02 {
        32
    }     else if cp == 0xFE03 {
        33
    }     else if cp == 0xFE04 {
        34
    }     else if cp == 0xFE05 {
        35
    }     else if cp == 0xFE06 {
        36
    }     else if cp == 0xFE07 {
        37
    }     else if cp == 0xFE08 {
        38
    }     else if cp == 0xFE09 {
        39
    }     else if cp == 0xFE0A {
        40
    }     else if cp == 0xFE0B {
        41
    }     else if cp == 0xFE0C {
        42
    }     else if cp == 0xFE0D {
        43
    }     else if cp == 0xFE0E {
        44
    }     else if cp == 0xFE0F {
        45
    }     else if cp == 0x206A {
        46
    }     else if cp == 0x206B {
        47
    }     else if cp == 0x206C {
        48
    }     else if cp == 0x206D {
        49
    }     else if cp == 0x206E {
        50
    }     else if cp == 0x206F {
        51
    }     else if cp == 0x2028 {
        52
    }     else if cp == 0x2029 {
        53
    } else {
        -1
    }
}

/// `catalog_position` finds the place of every catalogued code point, and
/// of no other.
pub proof fn lemma_catalog_position(cp: u32)
    ensures
        -1 <= catalog_position(cp) < CATALOG_LEN,
        catalog_position(cp) >= 0 ==> catalog_codepoints()[catalog_position(cp)] == cp,
        forall|i: int|
            0 <= i < CATALOG_LEN && #[trigger] catalog_codepoints()[i] == cp ==> catalog_position(
                cp,
            ) == i,
{
}

/// The catalog lists each code point once.
pub proof fn lemma_catalog_codepoints_unique()
    ensures
        catalog_codepoints().len() == CATALOG_LEN,
        catalog_codepoints().no_duplicates(),
{
    let s = catalog_codepoints();
    assert forall|i: int, j: int| 0 <= i < s.len() && 0 <= j < s.len() && i != j implies s[i]
        != s[j] by {
        assert(catalog_position(s[i]) == i);
        assert(catalog_position(s[j]) == j);
    }
}

/// A character is classified as zero-width exactly when its code point is
/// in the catalog or it is a Unicode Tag.
pub proof fn lemma_zero_width_iff_catalogued(ch: char)
    ensures
        spec_is_zero_width(ch) <==> (catalog_codepoints().contains(ch as u32)
            || spec_is_unicode_tag(ch)),
{
    let s = catalog_codepoints();
    let cp = ch as u32;
    if in_catalog_ranges(cp) {
        let k = catalog_position(cp);
        assert(0 <= k < s.len() && s[k] == cp);
    }
    if s.contains(cp) {
        let i = choose|i: int| 0 <= i < s.len() && s[i] == cp;
        assert(catalog_position(s[i]) == i);
        assert(in_catalog_ranges(cp));
    }
}

/// Ordinary ASCII letters and digits are never classified as zero-width.
pub proof fn lemma_ascii_alphanumeric_not_zero_width(ch: char)
    requires
        ('a' <= ch <= 'z') || ('A' <= ch <= 'Z') || ('0' <= ch <= '9'),
    ensures
        !spec_is_zero_width(ch),
{
}

} // verus!
