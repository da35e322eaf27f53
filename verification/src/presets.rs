//! The built-in encoding presets: well-known alphabets of zero-width
//! characters that the N-ary strategy is tried with.

use vstd::prelude::*;

verus! {

/// A named alphabet of zero-width characters. The position of a character
/// in `chars` is the digit it stands for.
pub struct Preset {
    pub name: &'static str,
    pub chars: Vec<char>,
    pub description: &'static str,
}

/// Number of built-in presets.
pub const PRESET_COUNT: usize = 6;

/// The key of preset `i`.
pub open spec fn preset_key(i: int) -> Seq<char> {
    if i == 0 {
        "330k_default"@
    }     else if i == 1 {
        "steganographr"@
    }     else if i == 2 {
        "stegcloak"@
    }     else if i == 3 {
        "zwsp_binary"@
    }     else if i == 4 {
        "common_3char"@
    } else {
        "irongeek_zw"@
    }
}

/// The display name of preset `i`.
pub open spec fn preset_name(i: int) -> Seq<char> {
    if i == 0 {
        "330k Unicode Steganography (默认4字符)"@
    }     else if i == 1 {
        "Steganographr (neatnik.net)"@
    }     else if i == 2 {
        "StegCloak"@
    }     else if i == 3 {
        "ZWSP Binary (基础二进制)"@
    }     else if i == 4 {
        "常见三字符方案"@
    } else {
        "Irongeek Zero-Width"@
    }
}

/// The alphabet of preset `i`.
pub open spec fn preset_chars(i: int) -> Seq<char> {
    if i == 0 {
        seq!['\u{200C}', '\u{200D}', '\u{202C}', '\u{FEFF}']
    }     else if i == 1 {
        seq!['\u{2060}', '\u{200B}', '\u{200C}']
    }     else if i == 2 {
        seq!['\u{200B}', '\u{200C}', '\u{200D}', '\u{FEFF}']
    }     else if i == 3 {
        seq!['\u{200B}', '\u{200C}']
    }     else if i == 4 {
        seq!['\u{200B}', '\u{200C}', '\u{200D}']
    } else {
        seq!['\u{200B}', '\u{200C}', '\u{200D}', '\u{FEFF}']
    }
}

/// The description of preset `i`.
pub open spec fn preset_description(i: int) -> Seq<char> {
    if i == 0 {
        "330k.github.io 默认方案: 4字符=2bit编码"@
    }     else if i == 1 {
        "WJ=分隔符, ZWSP=0, ZWNJ=1"@
    }     else if i == 2 {
        "StegCloak 字符集"@
    }     else if i == 3 {
        "ZWSP=0, ZWNJ=1"@
    }     else if i == 4 {
        "ZWSP/ZWNJ/ZWJ 三字符方案"@
    } else {
        "Irongeek 推荐的最兼容零宽字符组合"@
    }
}

/// What the list of presets holds at position `i`.
pub open spec fn is_preset_entry(e: (&'static str, Preset), i: int) -> bool {
    &&& e.0@ == preset_key(i)
    &&& e.1.name@ == preset_name(i)
    &&& e.1.chars@ == preset_chars(i)
    &&& e.1.description@ == preset_description(i)
}

/// The built-in presets, each with its key, in a fixed order.
pub fn encoding_presets() -> (r: Vec<(&'static str, Preset)>)
    ensures
        r@.len() == PRESET_COUNT,
        forall|i: int| 0 <= i < PRESET_COUNT ==> is_preset_entry(#[trigger] r@[i], i),
{
    let mut r: Vec<(&'static str, Preset)> = Vec::new();
    r.push(
        (
            "330k_default",
            Preset {
                name: "330k Unicode Steganography (默认4字符)",
                chars: vec!['\u{200C}', '\u{200D}', '\u{202C}', '\u{FEFF}'],
                description: "330k.github.io 默认方案: 4字符=2bit编码",
            },
        ),
    );
    r.push(
        (
            "steganographr",
            Preset {
                name: "Steganographr (neatnik.net)",
                chars: vec!['\u{2060}', '\u{200B}', '\u{200C}'],
                description: "WJ=分隔符, ZWSP=0, ZWNJ=1",
            },
        ),
    );
    r.push(
        (
            "stegcloak",
            Preset {
                name: "StegCloak",
                chars: vec!['\u{200B}', '\u{200C}', '\u{200D}', '\u{FEFF}'],
                description: "StegCloak 字符集",
            },
        ),
    );
    r.push(
        (
            "zwsp_binary",
            Preset {
                name: "ZWSP Binary (基础二进制)",
                chars: vec!['\u{200B}', '\u{200C}'],
                description: "ZWSP=0, ZWNJ=1",
            },
        ),
    );
    r.push(
        (
            "common_3char",
            Preset {
                name: "常见三字符方案",
                chars: vec!['\u{200B}', '\u{200C}', '\u{200D}'],
                description: "ZWSP/ZWNJ/ZWJ 三字符方案",
            },
        ),
    );
    r.push(
        (
            "irongeek_zw",
            Preset {
                name: "Irongeek Zero-Width",
                chars: vec!['\u{200B}', '\u{200C}', '\u{200D}', '\u{FEFF}'],
                description: "Irongeek 推荐的最兼容零宽字符组合",
            },
        ),
    );
    r
}

/// Every preset has at least two characters, and no character twice.
pub proof fn lemma_preset_alphabets(i: int)
    requires
        0 <= i < PRESET_COUNT,
    ensures
        preset_chars(i).len() >= 2,
        preset_chars(i).no_duplicates(),
{
}

} // verus!
