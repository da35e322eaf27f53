//! The decode strategies: each turns a run of zero-width characters into a
//! candidate plaintext, or finds none.
//!
//! A candidate is kept only if it passes the printability gate. Finding no
//! candidate is the ordinary outcome on text that hides nothing, and is
//! never an error.

use vstd::prelude::*;
use vstd::slice::slice_subrange;
use crate::radix::{
    accumulate, group, group_width, lemma_saturating_step, saturate, symbols_per_char, value_be,
};
use crate::render::{code_label, decimal, push_code_label, push_decimal};
use crate::score::{is_printable_chars, score_chars, spec_is_printable, spec_score, Score};
use crate::text::{extend_str, is_scalar_value, string_from_chars, to_chars};

verus! {

/// One decoded candidate: which strategy found it, the text, and how
/// plausible the text is.
#[derive(Debug, Clone)]
pub struct DecodeResult {
    pub method: String,
    pub decoded: String,
    pub score: Score,
}

/// A candidate as specifications see it.
pub struct DecodeView {
    pub method: Seq<char>,
    pub decoded: Seq<char>,
    pub score: Score,
}

impl View for DecodeResult {
    type V = DecodeView;

    open spec fn view(&self) -> DecodeView {
        DecodeView { method: self.method@, decoded: self.decoded@, score: self.score }
    }
}

/// The views of a sequence of results.
pub open spec fn views(results: Seq<DecodeResult>) -> Seq<DecodeView> {
    results.map_values(|r: DecodeResult| r@)
}

/// The view of an optional result.
pub open spec fn view_of(result: Option<DecodeResult>) -> Option<DecodeView> {
    match result {
        Some(r) => Some(r@),
        None => None,
    }
}

/// An optional value as a sequence of at most one element.
pub open spec fn option_seq<A>(o: Option<A>) -> Seq<A> {
    match o {
        Some(a) => seq![a],
        None => Seq::empty(),
    }
}

/// The candidate that a strategy labelled `method` yields from the text
/// `decoded`: the text with its score if it passes the printability gate,
/// none otherwise.
pub open spec fn candidate(method: Seq<char>, decoded: Seq<char>) -> Option<DecodeView> {
    if spec_is_printable(decoded) {
        Some(DecodeView { method, decoded, score: spec_score(decoded) })
    } else {
        None
    }
}

/// Applies the printability gate to `decoded` and scores it.
fn make_candidate(method: Vec<char>, decoded: Vec<char>) -> (r: Option<DecodeResult>)
    ensures
        view_of(r) == candidate(method@, decoded@),
        r is Some ==> r->0.score.wf(),
{
    if !is_printable_chars(decoded.as_slice()) {
        return None;
    }
    let score = score_chars(decoded.as_slice());
    Some(
        DecodeResult {
            method: string_from_chars(method.as_slice()),
            decoded: string_from_chars(decoded.as_slice()),
            score,
        },
    )
}

/// Every score in `results` is well formed.
pub open spec fn all_wf(results: Seq<DecodeResult>) -> bool {
    forall|i: int| 0 <= i < results.len() ==> (#[trigger] results[i]).score.wf()
}

/// Appends `found` to `results`, if there is one.
pub fn push_found(results: &mut Vec<DecodeResult>, found: Option<DecodeResult>)
    requires
        all_wf(old(results)@),
        found is Some ==> found->0.score.wf(),
    ensures
        views(final(results)@) == views(old(results)@) + option_seq(view_of(found)),
        all_wf(final(results)@),
{
    match found {
        Some(r) => {
            results.push(r);
        },
        None => {
        },
    }
}

/// The character with code point `v`, if `v` is between 1 and 127.
pub open spec fn emit_ascii(v: nat) -> Seq<char> {
    if 0 < v < 128 {
        seq![v as char]
    } else {
        Seq::empty()
    }
}

/// The character with code point `v`, if `v` is a Unicode scalar value
/// other than 0.
pub open spec fn emit_scalar(v: nat) -> Seq<char> {
    if 0 < v && is_scalar_value(v as int) {
        seq![v as char]
    } else {
        Seq::empty()
    }
}

// ---------------------------------------------------------------------
// Unicode Tags
// ---------------------------------------------------------------------

/// The ASCII character that the tag character `c` stands for, if it
/// stands for one other than NUL.
pub open spec fn tag_payload(c: char) -> Option<char> {
    if 0xE0000 < c as u32 <= 0xE007F {
        Some((c as u32 - 0xE0000) as char)
    } else {
        None
    }
}

/// The text that the tag characters of `text` spell.
pub open spec fn tags_text(text: Seq<char>) -> Seq<char> {
    text.filter_map(|c: char| tag_payload(c))
}

/// The label of the Unicode Tags strategy.
pub open spec fn tags_method() -> Seq<char> {
    "Unicode Tags (U+E0000-U+E007F)"@
}

/// What the Unicode Tags strategy finds in `text`.
pub open spec fn spec_decode_unicode_tags(text: Seq<char>) -> Option<DecodeView> {
    candidate(tags_method(), tags_text(text))
}

/// Unicode Tags: every tag character `U+E0001..=U+E007F` stands for the
/// ASCII character 0xE0000 below it; all other characters are ignored.
pub fn decode_unicode_tags(text: &str) -> (r: Option<DecodeResult>)
    ensures
        view_of(r) == spec_decode_unicode_tags(text@),
        r is Some ==> r->0.score.wf(),
{
    let chars = to_chars(text);
    let mut decoded: Vec<char> = Vec::new();
    let mut i: usize = 0;
    while i < chars.len()
        invariant
            i <= chars.len(),
            chars@ == text@,
            decoded@ == tags_text(text@.take(i as int)),
        decreases chars.len() - i,
    {
        proof {
            text@.lemma_filter_map_take_succ(|c: char| tag_payload(c), i as int);
        }
        let cp: u32 = chars[i] as u32;
        if cp >= 0xE0000 && cp <= 0xE007F {
            let ascii: u32 = cp - 0xE0000;
            if ascii > 0 && ascii < 128 {
                if let Some(c) = char::from_u32(ascii) {
                    decoded.push(c);
                }
            }
        }
        i += 1;
    }
    assert(text@.take(chars.len() as int) == text@);
    let mut method: Vec<char> = Vec::new();
    extend_str(&mut method, "Unicode Tags (U+E0000-U+E007F)");
    make_candidate(method, decoded)
}

// ---------------------------------------------------------------------
// Direct binary
// ---------------------------------------------------------------------

/// The bit that `c` stands for when `zero` stands for 0 and `one` for 1.
pub open spec fn bit_of(c: char, zero: char, one: char) -> Option<usize> {
    if c == zero {
        Some(0usize)
    } else if c == one {
        Some(1usize)
    } else {
        None
    }
}

/// The bits that the characters of `s` stand for. Characters that are
/// neither `zero` nor `one` are ignored.
pub open spec fn bit_stream(s: Seq<char>, zero: char, one: char) -> Seq<usize> {
    s.filter_map(|c: char| bit_of(c, zero, one))
}

/// The text of the first `k` groups of `width` bits of `stream`: each
/// group is a big-endian number, and contributes a character if that
/// number is between 1 and 127.
pub open spec fn binary_text(stream: Seq<usize>, width: nat, k: nat) -> Seq<char>
    decreases k,
{
    if k == 0 {
        Seq::empty()
    } else {
        binary_text(stream, width, (k - 1) as nat) + emit_ascii(
            value_be(group(stream, width, k - 1), 2),
        )
    }
}

/// The label of the direct binary strategy with the given roles.
pub open spec fn binary_method(zero: char, one: char, bits: nat) -> Seq<char> {
    "二进制 ("@ + code_label(zero as u32) + "=0, "@ + code_label(one as u32) + "=1, "@ + decimal(
        bits,
    ) + "bit)"@
}

/// What the direct binary strategy finds in `zw_seq`.
pub open spec fn spec_decode_direct_binary(
    zw_seq: Seq<char>,
    zero: char,
    one: char,
    bits: nat,
) -> Option<DecodeView> {
    let stream = bit_stream(zw_seq, zero, one);
    if stream.len() < bits {
        None
    } else {
        candidate(
            binary_method(zero, one, bits),
            binary_text(stream, bits, stream.len() / bits),
        )
    }
}

/// The bits that the characters of `s` stand for.
fn collect_bits(s: &[char], zero: char, one: char) -> (r: Vec<usize>)
    ensures
        r@ == bit_stream(s@, zero, one),
{
    let mut r: Vec<usize> = Vec::new();
    let mut i: usize = 0;
    while i < s.len()
        invariant
            i <= s.len(),
            r@ == bit_stream(s@.take(i as int), zero, one),
        decreases s.len() - i,
    {
        proof {
            s@.lemma_filter_map_take_succ(|c: char| bit_of(c, zero, one), i as int);
        }
        let c: char = s[i];
        if c == zero {
            r.push(0);
        } else if c == one {
            r.push(1);
        }
        i += 1;
    }
    assert(s@.take(s.len() as int) == s@);
    r
}

/// If `done` whole groups of `width` fit in `len` and one more does not,
/// then `done` is the number of whole groups.
pub proof fn lemma_group_count(len: nat, width: nat, done: nat)
    requires
        width > 0,
        done * width <= len < done * width + width,
    ensures
        done == len / width,
{
    vstd::arithmetic::div_mod::lemma_fundamental_div_mod_converse(
        len as int,
        width as int,
        done as int,
        len - done * width,
    );
}

/// The text of the whole groups of `width` bits of `stream`.
fn decode_bit_groups(stream: &[usize], width: usize) -> (r: Vec<char>)
    requires
        width >= 1,
    ensures
        r@ == binary_text(stream@, width as nat, stream@.len() / width as nat),
{
    let mut r: Vec<char> = Vec::new();
    let mut start: usize = 0;
    let ghost mut done: nat = 0;
    while stream.len() - start >= width
        invariant
            width >= 1,
            start <= stream.len(),
            start == done * width,
            r@ == binary_text(stream@, width as nat, done),
        decreases stream.len() - start,
    {
        let chunk = slice_subrange(stream, start, start + width);
        let value: u32 = accumulate(chunk, 2);
        proof {
            assert((done + 1) * width == start + width) by (nonlinear_arith)
                requires
                    start == done * width,
            ;
        }
        if value > 0 && value < 128 {
            if let Some(c) = char::from_u32(value) {
                r.push(c);
            }
        }
        start = start + width;
        proof {
            done = done + 1;
        }
    }
    proof {
        lemma_group_count(stream@.len(), width as nat, done);
    }
    r
}

/// Appends the label of the direct binary strategy to `out`.
fn push_role_label(out: &mut Vec<char>, zero: char, one: char, bits: usize, unit: &str)
    ensures
        final(out)@ == old(out)@ + code_label(zero as u32) + "=0, "@ + code_label(one as u32)
            + "=1, "@ + decimal(bits as nat) + unit@,
{
    push_code_label(out, zero as u32);
    extend_str(out, "=0, ");
    push_code_label(out, one as u32);
    extend_str(out, "=1, ");
    push_decimal(out, bits);
    extend_str(out, unit);
}

/// Direct binary: the occurrences of `zero_char` and `one_char` in
/// `zw_seq` form one bit stream, read in groups of `bits` bits; a trailing
/// short group is dropped. No result if the stream is shorter than one
/// group.
pub fn decode_direct_binary(zw_seq: &[char], zero_char: char, one_char: char, bits: usize) -> (r:
    Option<DecodeResult>)
    requires
        bits >= 1,
    ensures
        view_of(r) == spec_decode_direct_binary(zw_seq@, zero_char, one_char, bits as nat),
        r is Some ==> r->0.score.wf(),
{
    let stream = collect_bits(zw_seq, zero_char, one_char);
    if stream.len() < bits {
        return None;
    }
    let decoded = decode_bit_groups(stream.as_slice(), bits);
    let mut method: Vec<char> = Vec::new();
    extend_str(&mut method, "二进制 (");
    push_role_label(&mut method, zero_char, one_char, bits, "bit)");
    make_candidate(method, decoded)
}

// ---------------------------------------------------------------------
// Steganographr
// ---------------------------------------------------------------------

/// The separator between the groups of a Steganographr payload.
pub const WORD_JOINER: char = '\u{2060}';

/// The Steganographr symbol for a 0 bit.
pub const ZERO_WIDTH_SPACE: char = '\u{200B}';

/// The Steganographr symbol for a 1 bit.
pub const ZERO_WIDTH_NON_JOINER: char = '\u{200C}';

/// `s` cut at every occurrence of `sep`: the runs between separators, in
/// order. There is one run more than there are separators.
pub open spec fn split_on(s: Seq<char>, sep: char) -> Seq<Seq<char>>
    decreases s.len(),
{
    if s.len() == 0 {
        seq![Seq::empty()]
    } else {
        let before = split_on(s.drop_last(), sep);
        if s.last() == sep {
            before.push(Seq::empty())
        } else {
            before.drop_last().push(before.last().push(s.last()))
        }
    }
}

/// The character that one Steganographr group spells: its zero and one
/// symbols form a big-endian binary number, and the group spells the
/// character with that code point, or nothing if the number is 0 or no
/// code point. Other characters in the group are ignored.
pub open spec fn steg_group_text(g: Seq<char>) -> Seq<char> {
    emit_scalar(value_be(bit_stream(g, ZERO_WIDTH_SPACE, ZERO_WIDTH_NON_JOINER), 2))
}

/// The text that a sequence of Steganographr groups spells.
pub open spec fn steg_text(groups: Seq<Seq<char>>) -> Seq<char>
    decreases groups.len(),
{
    if groups.len() == 0 {
        Seq::empty()
    } else {
        steg_text(groups.drop_last()) + steg_group_text(groups.last())
    }
}

/// The label of the Steganographr strategy.
pub open spec fn steg_method() -> Seq<char> {
    "Steganographr (WJ+ZWSP+ZWNJ)"@
}

/// What the Steganographr strategy finds in `text`.
pub open spec fn spec_decode_steganographr(text: Seq<char>) -> Option<DecodeView> {
    candidate(steg_method(), steg_text(split_on(text, WORD_JOINER)))
}

/// Appends to `out` the character with code point `value`, if `value` is
/// a scalar value other than 0.
fn push_scalar(out: &mut Vec<char>, value: u32)
    ensures
        forall|v: nat| saturate(v) == value ==> final(out)@ == old(out)@ + emit_scalar(v),
{
    if value > 0 {
        if let Some(c) = char::from_u32(value) {
            out.push(c);
            return ;
        }
    }
}

/// Steganographr: the word joiner `U+2060` separates groups; within a
/// group, `U+200B` is a 0 bit and `U+200C` a 1 bit, and every other
/// character is ignored. Each group spells one character.
pub fn decode_steganographr(text: &str) -> (r: Option<DecodeResult>)
    ensures
        view_of(r) == spec_decode_steganographr(text@),
        r is Some ==> r->0.score.wf(),
{
    let chars = to_chars(text);
    let mut decoded: Vec<char> = Vec::new();
    // the value of the group being read, saturated
    let mut value: u32 = 0;
    let mut i: usize = 0;
    while i < chars.len()
        invariant
            i <= chars.len(),
            chars@ == text@,
            decoded@ == steg_text(split_on(text@.take(i as int), WORD_JOINER).drop_last()),
            value == saturate(
                value_be(
                    bit_stream(
                        split_on(text@.take(i as int), WORD_JOINER).last(),
                        ZERO_WIDTH_SPACE,
                        ZERO_WIDTH_NON_JOINER,
                    ),
                    2,
                ),
            ),
            split_on(text@.take(i as int), WORD_JOINER).len() >= 1,
        decreases chars.len() - i,
    {
        let c: char = chars[i];
        let ghost before = split_on(text@.take(i as int), WORD_JOINER);
        let ghost after = split_on(text@.take(i + 1), WORD_JOINER);
        let ghost open_bits = bit_stream(before.last(), ZERO_WIDTH_SPACE, ZERO_WIDTH_NON_JOINER);
        proof {
            assert(text@.take(i + 1).drop_last() == text@.take(i as int));
            assert(text@.take(i + 1).last() == c);
        }
        if c == WORD_JOINER {
            proof {
                assert(after == before.push(Seq::empty()));
                assert(after.drop_last() == before);
                assert(before == before.drop_last().push(before.last()));
                assert(bit_stream(after.last(), ZERO_WIDTH_SPACE, ZERO_WIDTH_NON_JOINER).len()
                    == 0);
            }
            push_scalar(&mut decoded, value);
            value = 0;
        } else {
            proof {
                let grown = before.last().push(c);
                assert(after == before.drop_last().push(grown));
                assert(after.drop_last() == before.drop_last());
                assert(grown.drop_last() == before.last());
                let grown_bits = bit_stream(grown, ZERO_WIDTH_SPACE, ZERO_WIDTH_NON_JOINER);
                if c == ZERO_WIDTH_SPACE || c == ZERO_WIDTH_NON_JOINER {
                    let b: usize = if c == ZERO_WIDTH_SPACE {
                        0
                    } else {
                        1
                    };
                    assert(grown_bits == open_bits + seq![b]);
                    assert(grown_bits.drop_last() == open_bits);
                    lemma_saturating_step(value_be(open_bits, 2), 2, b as nat);
                } else {
                    assert(grown_bits == open_bits);
                }
            }
            if c == ZERO_WIDTH_SPACE {
                value = value.saturating_mul(2).saturating_add(0);
            } else if c == ZERO_WIDTH_NON_JOINER {
                value = value.saturating_mul(2).saturating_add(1);
            }
        }
        i += 1;
    }
    proof {
        assert(text@.take(chars.len() as int) == text@);
        let groups = split_on(text@, WORD_JOINER);
        assert(groups == groups.drop_last().push(groups.last()));
    }
    push_scalar(&mut decoded, value);
    let mut method: Vec<char> = Vec::new();
    extend_str(&mut method, "Steganographr (WJ+ZWSP+ZWNJ)");
    make_candidate(method, decoded)
}

// ---------------------------------------------------------------------
// Segmented binary
// ---------------------------------------------------------------------

/// The character that one segment spells: the segment must consist of
/// exactly `bits` symbols, each `zero` or `one`, that form a big-endian
/// number between 1 and 127.
pub open spec fn segment_char(seg: Seq<char>, zero: char, one: char, bits: nat) -> Option<char> {
    let stream = bit_stream(seg, zero, one);
    if seg.len() == bits && stream.len() == bits && 0 < value_be(stream, 2) < 128 {
        Some(value_be(stream, 2) as char)
    } else {
        None
    }
}

/// The text that `segments` spell, one character each, or none if any
/// segment spells no character.
pub open spec fn segments_text(segments: Seq<Seq<char>>, zero: char, one: char, bits: nat)
    -> Option<Seq<char>>
    decreases segments.len(),
{
    if segments.len() == 0 {
        Some(Seq::empty())
    } else {
        match (
            segments_text(segments.drop_last(), zero, one, bits),
            segment_char(segments.last(), zero, one, bits),
        ) {
            (Some(t), Some(c)) => Some(t.push(c)),
            _ => None,
        }
    }
}

/// The label of the segmented binary strategy with the given roles.
pub open spec fn segmented_method(zero: char, one: char, bits: nat) -> Seq<char> {
    "分段二进制 ("@ + code_label(zero as u32) + "=0, "@ + code_label(one as u32) + "=1, "@
        + decimal(bits) + "bit/段)"@
}

/// What the segmented binary strategy finds in `segments`.
pub open spec fn spec_decode_segmented_binary(
    segments: Seq<Seq<char>>,
    zero: char,
    one: char,
    bits: nat,
) -> Option<DecodeView> {
    match segments_text(segments, zero, one, bits) {
        Some(t) => candidate(segmented_method(zero, one, bits), t),
        None => None,
    }
}

/// The texts of a sequence of strings.
pub open spec fn texts(strings: Seq<String>) -> Seq<Seq<char>> {
    strings.map_values(|s: String| s@)
}

/// The character that the segment `seg` spells.
fn decode_segment(seg: &str, zero: char, one: char, bits: usize) -> (r: Option<char>)
    ensures
        r == segment_char(seg@, zero, one, bits as nat),
{
    let chars = to_chars(seg);
    if chars.len() != bits {
        return None;
    }
    let stream = collect_bits(chars.as_slice(), zero, one);
    if stream.len() != bits {
        return None;
    }
    let value: u32 = accumulate(stream.as_slice(), 2);
    if value > 0 && value < 128 {
        char::from_u32(value)
    } else {
        None
    }
}

/// Segmented binary: every segment must consist of exactly `bits`
/// occurrences of `zero_char` and `one_char` and spell one character
/// between 1 and 127. A segment of another length, or holding another
/// symbol, or spelling a value out of range, leaves no result at all.
pub fn decode_segmented_binary(
    segments: &[String],
    zero_char: char,
    one_char: char,
    bits: usize,
) -> (r: Option<DecodeResult>)
    ensures
        view_of(r) == spec_decode_segmented_binary(
            texts(segments@),
            zero_char,
            one_char,
            bits as nat,
        ),
        r is Some ==> r->0.score.wf(),
{
    let mut decoded: Vec<char> = Vec::new();
    let mut i: usize = 0;
    while i < segments.len()
        invariant
            i <= segments.len(),
            segments_text(texts(segments@).take(i as int), zero_char, one_char, bits as nat)
                == Some(decoded@),
        decreases segments.len() - i,
    {
        let ghost all = texts(segments@);
        proof {
            assert(all.take(i + 1).drop_last() == all.take(i as int));
        }
        match decode_segment(segments[i].as_str(), zero_char, one_char, bits) {
            Some(c) => {
                decoded.push(c);
            },
            None => {
                proof {
                    lemma_segments_abort(all, zero_char, one_char, bits as nat, i + 1);
                }
                return None;
            },
        }
        i += 1;
    }
    assert(texts(segments@).take(segments.len() as int) == texts(segments@));
    let mut method: Vec<char> = Vec::new();
    extend_str(&mut method, "分段二进制 (");
    push_role_label(&mut method, zero_char, one_char, bits, "bit/段)");
    make_candidate(method, decoded)
}

/// Once a prefix of the segments spells no text, neither does the whole.
proof fn lemma_segments_abort(
    segments: Seq<Seq<char>>,
    zero: char,
    one: char,
    bits: nat,
    k: int,
)
    requires
        0 <= k <= segments.len(),
        segments_text(segments.take(k), zero, one, bits) is None,
    ensures
        segments_text(segments, zero, one, bits) is None,
    decreases segments.len() - k,
{
    if k < segments.len() {
        assert(segments.take(k + 1).drop_last() == segments.take(k));
        lemma_segments_abort(segments, zero, one, bits, k + 1);
    } else {
        assert(segments.take(k) == segments);
    }
}

// ---------------------------------------------------------------------
// N-ary mapping
// ---------------------------------------------------------------------

/// The digit that `c` stands for in the alphabet `charset`: its position
/// there (the last one, should it occur more than once), or none if it
/// does not occur.
pub open spec fn digit_of(charset: Seq<char>, c: char) -> Option<usize>
    decreases charset.len(),
{
    if charset.len() == 0 {
        None
    } else if charset.last() == c {
        Some((charset.len() - 1) as usize)
    } else {
        digit_of(charset.drop_last(), c)
    }
}

/// The digits that the characters of `zw_seq` stand for. Characters
/// outside the alphabet are ignored.
pub open spec fn nary_digits(zw_seq: Seq<char>, charset: Seq<char>) -> Seq<usize> {
    zw_seq.filter_map(|c: char| digit_of(charset, c))
}

/// The group size `e`, unless it is `g` or next to `g`.
pub open spec fn extra_size(g: nat, e: usize) -> Seq<usize> {
    if e == g || e + 1 == g || e == g + 1 {
        Seq::empty()
    } else {
        seq![e]
    }
}

/// The group sizes tried for a default group size `g`, in the order in
/// which they are tried: `g`, its neighbours, then 4 to 8; each once, and
/// none outside `1..=16`.
pub open spec fn trial_sizes(g: nat) -> Seq<usize> {
    seq![g as usize] + (if g > 1 {
        seq![(g - 1) as usize]
    } else {
        Seq::empty()
    }) + (if g < 16 {
        seq![(g + 1) as usize]
    } else {
        Seq::empty()
    }) + extra_size(g, 4) + extra_size(g, 5) + extra_size(g, 6) + extra_size(g, 7) + extra_size(
        g,
        8,
    )
}

/// The text of the first `k` groups of `size` digits in base `base`, or
/// none if one of them is no code point. A group of value 0 contributes
/// nothing.
pub open spec fn nary_text(digits: Seq<usize>, base: nat, size: nat, k: nat) -> Option<Seq<char>>
    decreases k,
{
    if k == 0 {
        Some(Seq::empty())
    } else {
        match nary_text(digits, base, size, (k - 1) as nat) {
            None => None,
            Some(t) => {
                let v = value_be(group(digits, size, k - 1), base);
                if v == 0 {
                    Some(t)
                } else if is_scalar_value(v as int) {
                    Some(t.push(v as char))
                } else {
                    None
                }
            },
        }
    }
}

/// The labels of the characters of `charset`, with `sep` between them.
pub open spec fn joined_labels(charset: Seq<char>, sep: char) -> Seq<char>
    decreases charset.len(),
{
    if charset.len() == 0 {
        Seq::empty()
    } else if charset.len() == 1 {
        code_label(charset[0] as u32)
    } else {
        joined_labels(charset.drop_last(), sep) + seq![sep] + code_label(charset.last() as u32)
    }
}

/// The label of the N-ary strategy with the given alphabet and group
/// size.
pub open spec fn nary_method(charset: Seq<char>, size: nat) -> Seq<char> {
    decimal(charset.len()) + "进制 ("@ + joined_labels(charset, '+') + ", 分组="@ + decimal(size)
        + ")"@
}

/// The score a candidate of the sweeps must exceed to be kept.
pub const KEEP_ABOVE: u32 = 15;

/// What the N-ary strategy finds with groups of `size` digits: the text
/// of all whole groups, if it passes the printability gate and scores
/// above 15.
pub open spec fn nary_candidate(digits: Seq<usize>, charset: Seq<char>, size: nat) -> Option<
    DecodeView,
> {
    match nary_text(digits, charset.len(), size, digits.len() / size) {
        None => None,
        Some(t) => if spec_score(t).above(KEEP_ABOVE as int) {
            candidate(nary_method(charset, size), t)
        } else {
            None
        },
    }
}

/// What the N-ary strategy finds with each of the group sizes `sizes`, in
/// order.
pub open spec fn nary_candidates(digits: Seq<usize>, charset: Seq<char>, sizes: Seq<usize>)
    -> Seq<DecodeView>
    decreases sizes.len(),
{
    if sizes.len() == 0 {
        Seq::empty()
    } else {
        nary_candidates(digits, charset, sizes.drop_last()) + option_seq(
            nary_candidate(digits, charset, sizes.last() as nat),
        )
    }
}

/// What the N-ary strategy finds in `zw_seq` with the alphabet `charset`.
pub open spec fn spec_decode_nary(zw_seq: Seq<char>, charset: Seq<char>) -> Seq<DecodeView> {
    let digits = nary_digits(zw_seq, charset);
    if charset.len() < 2 || digits.len() == 0 {
        Seq::empty()
    } else {
        nary_candidates(digits, charset, trial_sizes(group_width(charset.len())))
    }
}

/// The digit that `c` stands for in `charset`.
fn find_digit(charset: &[char], c: char) -> (r: Option<usize>)
    ensures
        r == digit_of(charset@, c),
{
    let mut k: usize = charset.len();
    assert(charset@.take(k as int) == charset@);
    while k > 0
        invariant
            k <= charset.len(),
            digit_of(charset@, c) == digit_of(charset@.take(k as int), c),
        decreases k,
    {
        k -= 1;
        proof {
            assert(charset@.take(k + 1).drop_last() == charset@.take(k as int));
        }
        if charset[k] == c {
            return Some(k);
        }
    }
    None
}

/// The digits that the characters of `zw_seq` stand for.
fn collect_digits(zw_seq: &[char], charset: &[char]) -> (r: Vec<usize>)
    ensures
        r@ == nary_digits(zw_seq@, charset@),
{
    let mut r: Vec<usize> = Vec::new();
    let mut i: usize = 0;
    while i < zw_seq.len()
        invariant
            i <= zw_seq.len(),
            r@ == nary_digits(zw_seq@.take(i as int), charset@),
        decreases zw_seq.len() - i,
    {
        proof {
            zw_seq@.lemma_filter_map_take_succ(|c: char| digit_of(charset@, c), i as int);
        }
        if let Some(d) = find_digit(charset, zw_seq[i]) {
            r.push(d);
        }
        i += 1;
    }
    assert(zw_seq@.take(zw_seq.len() as int) == zw_seq@);
    r
}

/// The group sizes to try for the default group size `g`.
fn sizes_to_try(g: usize) -> (r: Vec<usize>)
    requires
        1 <= g <= 16,
    ensures
        r@ == trial_sizes(g as nat),
        forall|i: int| 0 <= i < r@.len() ==> 1 <= #[trigger] r@[i] <= 16,
{
    let mut r: Vec<usize> = Vec::new();
    r.push(g);
    if g > 1 {
        r.push(g - 1);
    }
    if g < 16 {
        r.push(g + 1);
    }
    let mut extra: usize = 4;
    while extra <= 8
        invariant
            1 <= g <= 16,
            4 <= extra <= 9,
            forall|i: int| 0 <= i < r@.len() ==> 1 <= #[trigger] r@[i] <= 16,
            r@ == seq![g] + (if g > 1 {
                seq![(g - 1) as usize]
            } else {
                Seq::empty()
            }) + (if g < 16 {
                seq![(g + 1) as usize]
            } else {
                Seq::empty()
            }) + (if extra > 4 {
                extra_size(g as nat, 4)
            } else {
                Seq::empty()
            }) + (if extra > 5 {
                extra_size(g as nat, 5)
            } else {
                Seq::empty()
            }) + (if extra > 6 {
                extra_size(g as nat, 6)
            } else {
                Seq::empty()
            }) + (if extra > 7 {
                extra_size(g as nat, 7)
            } else {
                Seq::empty()
            }) + (if extra > 8 {
                extra_size(g as nat, 8)
            } else {
                Seq::empty()
            }),
        decreases 9 - extra,
    {
        if !(extra == g || extra + 1 == g || extra == g + 1) {
            r.push(extra);
        }
        extra += 1;
    }
    r
}

/// Once the first `k` groups spell no text, no larger number of groups
/// does.
proof fn lemma_nary_abort(digits: Seq<usize>, base: nat, size: nat, k: nat, n: nat)
    requires
        k <= n,
        nary_text(digits, base, size, k) is None,
    ensures
        nary_text(digits, base, size, n) is None,
    decreases n - k,
{
    if k < n {
        lemma_nary_abort(digits, base, size, k, (n - 1) as nat);
    }
}

/// The text of the whole groups of `size` digits of `digits`.
fn decode_digit_groups(digits: &[usize], base: usize, size: usize) -> (r: Option<Vec<char>>)
    requires
        size >= 1,
    ensures
        match r {
            Some(t) => nary_text(digits@, base as nat, size as nat, digits@.len() / size as nat)
                == Some(t@),
            None => nary_text(digits@, base as nat, size as nat, digits@.len() / size as nat)
                is None,
        },
{
    let mut text: Vec<char> = Vec::new();
    let mut start: usize = 0;
    let ghost mut done: nat = 0;
    while digits.len() - start >= size
        invariant
            size >= 1,
            start <= digits.len(),
            start == done * size,
            nary_text(digits@, base as nat, size as nat, done) == Some(text@),
        decreases digits.len() - start,
    {
        let chunk = slice_subrange(digits, start, start + size);
        let value: u32 = accumulate(chunk, base);
        proof {
            assert((done + 1) * size == start + size) by (nonlinear_arith)
                requires
                    start == done * size,
            ;
        }
        if value > 0 && value < 0x110000 {
            match char::from_u32(value) {
                Some(c) => {
                    text.push(c);
                },
                None => {
                    proof {
                        let total = digits@.len() / size as nat;
                        assert(done + 1 <= total) by {
                            vstd::arithmetic::div_mod::lemma_fundamental_div_mod(
                                digits@.len() as int,
                                size as int,
                            );
                            if total < done + 1 {
                                assert(size * total + size <= size * (done + 1))
                                    by (nonlinear_arith)
                                    requires
                                        total + 1 <= done + 1,
                                        size >= 1,
                                ;
                                assert(size * (done + 1) == (done + 1) * size)
                                    by (nonlinear_arith);
                            }
                        }
                        lemma_nary_abort(digits@, base as nat, size as nat, done + 1, total);
                    }
                    return None;
                },
            }
        } else if value != 0 {
            proof {
                let total = digits@.len() / size as nat;
                assert(done + 1 <= total) by {
                    vstd::arithmetic::div_mod::lemma_fundamental_div_mod(
                        digits@.len() as int,
                        size as int,
                    );
                    if total < done + 1 {
                        assert(size * total + size <= size * (done + 1)) by (nonlinear_arith)
                            requires
                                total + 1 <= done + 1,
                                size >= 1,
                        ;
                        assert(size * (done + 1) == (done + 1) * size) by (nonlinear_arith);
                    }
                }
                lemma_nary_abort(digits@, base as nat, size as nat, done + 1, total);
            }
            return None;
        }
        start = start + size;
        proof {
            done = done + 1;
        }
    }
    proof {
        lemma_group_count(digits@.len(), size as nat, done);
    }
    Some(text)
}

/// Appends the labels of the characters of `charset`, with `sep` between
/// them.
pub fn push_joined_labels(out: &mut Vec<char>, charset: &[char], sep: char)
    ensures
        final(out)@ == old(out)@ + joined_labels(charset@, sep),
{
    let mut i: usize = 0;
    while i < charset.len()
        invariant
            i <= charset.len(),
            out@ == old(out)@ + joined_labels(charset@.take(i as int), sep),
        decreases charset.len() - i,
    {
        proof {
            assert(charset@.take(i + 1).drop_last() == charset@.take(i as int));
        }
        if i > 0 {
            out.push(sep);
        }
        push_code_label(out, charset[i] as u32);
        i += 1;
    }
    assert(charset@.take(charset.len() as int) == charset@);
}

/// What the N-ary strategy finds with groups of `size` digits.
fn decode_nary_with_size(digits: &[usize], charset: &[char], size: usize) -> (r: Option<
    DecodeResult,
>)
    requires
        size >= 1,
    ensures
        view_of(r) == nary_candidate(digits@, charset@, size as nat),
        r is Some ==> r->0.score.wf(),
{
    let text = match decode_digit_groups(digits, charset.len(), size) {
        Some(t) => t,
        None => {
            return None;
        },
    };
    if !is_printable_chars(text.as_slice()) {
        return None;
    }
    let score = score_chars(text.as_slice());
    if !score.exceeds(KEEP_ABOVE) {
        return None;
    }
    let mut method: Vec<char> = Vec::new();
    push_decimal(&mut method, charset.len());
    extend_str(&mut method, "进制 (");
    push_joined_labels(&mut method, charset, '+');
    extend_str(&mut method, ", 分组=");
    push_decimal(&mut method, size);
    extend_str(&mut method, ")");
    Some(
        DecodeResult {
            method: string_from_chars(method.as_slice()),
            decoded: string_from_chars(text.as_slice()),
            score,
        },
    )
}

/// N-ary mapping: every character of `zw_seq` that occurs in `charset`
/// is a digit in base `charset.len()`, its position there. The digits are
/// read in groups, each a big-endian number that is the code point of one
/// character, for each of up to eight group sizes; a size is kept if its
/// text passes the printability gate and scores above 15.
pub fn decode_nary(zw_seq: &[char], charset: &[char]) -> (r: Vec<DecodeResult>)
    ensures
        views(r@) == spec_decode_nary(zw_seq@, charset@),
        all_wf(r@),
{
    let base: usize = charset.len();
    let mut results: Vec<DecodeResult> = Vec::new();
    if base < 2 {
        return results;
    }
    let digits = collect_digits(zw_seq, charset);
    if digits.len() == 0 {
        return results;
    }
    let sizes = sizes_to_try(symbols_per_char(base));
    let mut i: usize = 0;
    while i < sizes.len()
        invariant
            i <= sizes.len(),
            forall|k: int| 0 <= k < sizes@.len() ==> 1 <= #[trigger] sizes@[k] <= 16,
            views(results@) == nary_candidates(digits@, charset@, sizes@.take(i as int)),
            all_wf(results@),
        decreases sizes.len() - i,
    {
        proof {
            assert(sizes@.take(i + 1).drop_last() == sizes@.take(i as int));
        }
        let found = decode_nary_with_size(digits.as_slice(), charset, sizes[i]);
        push_found(&mut results, found);
        i += 1;
    }
    assert(sizes@.take(sizes.len() as int) == sizes@);
    results
}

} // verus!
