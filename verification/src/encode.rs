//! The encoders: each turns a message into a run of zero-width
//! characters, optionally placed in the middle of a cover text.
//!
//! Encoders never fail. A character that the scheme cannot carry is
//! dropped or loses its high digits, as each encoder documents.

use vstd::prelude::*;
use vstd::arithmetic::div_mod::lemma_div_denominator;
use crate::decode::{WORD_JOINER, ZERO_WIDTH_NON_JOINER, ZERO_WIDTH_SPACE};
use crate::radix::{
    digit_at, digits_be, group_width, lemma_power_positive, power, symbols_per_char,
};
use crate::text::{extend_chars, string_from_chars, to_chars};

verus! {

/// The symbols for the `count` lowest digits of the code point of `c`
/// in base `alphabet.len()`, most significant first: the digit `d` is
/// written as `alphabet[d]`. Digits of higher weight are lost.
pub open spec fn symbol_block(c: char, alphabet: Seq<char>, count: nat) -> Seq<char> {
    digits_be(c as nat, alphabet.len(), count).map_values(|d: usize| alphabet[d as int])
}

/// The blocks of all characters of `message`, one after the other.
pub open spec fn encode_blocks(message: Seq<char>, alphabet: Seq<char>, count: nat) -> Seq<char> {
    message.map_values(|c: char| symbol_block(c, alphabet, count)).flatten()
}

/// The binary encoding of `message`: `bits` symbols per character, the
/// low `bits` bits of its code point, most significant first, with `zero`
/// for 0 and `one` for 1.
pub open spec fn spec_encode_binary(message: Seq<char>, zero: char, one: char, bits: nat) -> Seq<
    char,
> {
    encode_blocks(message, seq![zero, one], bits)
}

/// The Steganographr block of `c`: the low 8 bits of its code point, and
/// the separator.
pub open spec fn steg_block(c: char) -> Seq<char> {
    symbol_block(c, seq![ZERO_WIDTH_SPACE, ZERO_WIDTH_NON_JOINER], 8).push(WORD_JOINER)
}

/// The Steganographr payload of `message`.
pub open spec fn steg_payload(message: Seq<char>) -> Seq<char> {
    message.map_values(|c: char| steg_block(c)).flatten()
}

/// The tag character for `c`, if `c` is ASCII.
pub open spec fn tag_for(c: char) -> Option<char> {
    if (c as u32) < 128 {
        Some((0xE0000 + c as u32) as char)
    } else {
        None
    }
}

/// The Unicode Tags payload of `message`: one tag character for each
/// ASCII character; other characters are dropped.
pub open spec fn tags_payload(message: Seq<char>) -> Seq<char> {
    message.filter_map(|c: char| tag_for(c))
}

/// The N-ary payload of `message` over the alphabet `charset`: as many
/// symbols per character as a 16-bit value takes.
pub open spec fn nary_payload(message: Seq<char>, charset: Seq<char>) -> Seq<char> {
    encode_blocks(message, charset, group_width(charset.len()))
}

/// Whether a cover text is used: it must have two characters or more.
pub open spec fn cover_is_used(cover: Seq<char>) -> bool {
    cover.len() >= 2
}

/// `payload` placed in the middle of `cover`, after the first half of its
/// characters (rounded down); `payload` alone if the cover has fewer than
/// two characters.
pub open spec fn embed(payload: Seq<char>, cover: Seq<char>) -> Seq<char> {
    if cover_is_used(cover) {
        let mid = cover.len() as int / 2;
        cover.take(mid) + payload + cover.skip(mid)
    } else {
        payload
    }
}

/// Appends to `out` the block of `c` over `alphabet`.
fn push_block(out: &mut Vec<char>, c: char, alphabet: &[char], count: usize)
    requires
        alphabet@.len() >= 2,
    ensures
        final(out)@ == old(out)@ + symbol_block(c, alphabet@, count as nat),
{
    let base: usize = alphabet.len();
    let ghost v = c as nat;
    // the digits, least significant first
    let mut digits: Vec<usize> = Vec::new();
    let mut rest: usize = c as u32 as usize;
    let mut k: usize = 0;
    proof {
        assert(power(base as nat, 0) == 1);
    }
    while k < count
        invariant
            k <= count,
            base == alphabet@.len(),
            base >= 2,
            digits@.len() == k,
            rest == v / power(base as nat, k as nat),
            forall|j: int|
                0 <= j < k ==> #[trigger] digits@[j] == digit_at(v, base as nat, j as nat),
        decreases count - k,
    {
        proof {
            let p = power(base as nat, k as nat);
            lemma_power_positive(base as nat, k as nat);
            assert(power(base as nat, (k + 1) as nat) == base * p);
            lemma_div_denominator(v as int, p as int, base as int);
        }
        digits.push(rest % base);
        rest = rest / base;
        k += 1;
    }
    let ghost block = symbol_block(c, alphabet@, count as nat);
    let mut done: usize = 0;
    while done < count
        invariant
            done <= count,
            digits@.len() == count,
            base == alphabet@.len(),
            base >= 2,
            forall|j: int|
                0 <= j < count ==> #[trigger] digits@[j] == digit_at(v, base as nat, j as nat),
            v == c as nat,
            block == symbol_block(c, alphabet@, count as nat),
            out@ == old(out)@ + block.take(done as int),
        decreases count - done,
    {
        let d: usize = digits[count - 1 - done];
        out.push(alphabet[d]);
        done += 1;
    }
}

/// Appends to `out` the blocks of all characters of `message`.
fn push_blocks(out: &mut Vec<char>, message: &[char], alphabet: &[char], count: usize)
    requires
        alphabet@.len() >= 2,
    ensures
        final(out)@ == old(out)@ + encode_blocks(message@, alphabet@, count as nat),
{
    let ghost block_of = |c: char| symbol_block(c, alphabet@, count as nat);
    let mut i: usize = 0;
    while i < message.len()
        invariant
            i <= message.len(),
            alphabet@.len() >= 2,
            block_of == |c: char| symbol_block(c, alphabet@, count as nat),
            out@ == old(out)@ + message@.take(i as int).map_values(block_of).flatten(),
        decreases message.len() - i,
    {
        proof {
            let before = message@.take(i as int).map_values(block_of);
            assert(message@.take(i + 1).map_values(block_of) =~= before.push(
                block_of(message@[i as int]),
            ));
            before.lemma_flatten_push(block_of(message@[i as int]));
        }
        push_block(out, message[i], alphabet, count);
        i += 1;
    }
    assert(message@.take(message.len() as int) == message@);
}

/// Places `payload` in the middle of `cover`, if the cover is used.
fn embed_in_cover(payload: Vec<char>, cover: &str) -> (r: String)
    ensures
        r@ == embed(payload@, cover@),
{
    let cover_chars = to_chars(cover);
    if cover_chars.len() < 2 {
        return string_from_chars(payload.as_slice());
    }
    let mid: usize = cover_chars.len() / 2;
    let mut out: Vec<char> = Vec::new();
    extend_chars(&mut out, vstd::slice::slice_subrange(cover_chars.as_slice(), 0, mid));
    extend_chars(&mut out, payload.as_slice());
    extend_chars(
        &mut out,
        vstd::slice::slice_subrange(cover_chars.as_slice(), mid, cover_chars.len()),
    );
    string_from_chars(out.as_slice())
}

/// Binary encoding: each character of `message` becomes `bits` symbols,
/// the low `bits` bits of its code point, most significant first, with
/// `zero_char` for 0 and `one_char` for 1. Higher bits are lost.
pub fn encode_binary(message: &str, zero_char: char, one_char: char, bits: usize) -> (r: String)
    ensures
        r@ == spec_encode_binary(message@, zero_char, one_char, bits as nat),
{
    let chars = to_chars(message);
    let alphabet: Vec<char> = vec![zero_char, one_char];
    let mut out: Vec<char> = Vec::new();
    push_blocks(&mut out, chars.as_slice(), alphabet.as_slice(), bits);
    string_from_chars(out.as_slice())
}

/// Steganographr encoding: each character of `message` becomes the low
/// 8 bits of its code point, `U+200B` for 0 and `U+200C` for 1, followed
/// by the separator `U+2060`. The payload is placed in the middle of
/// `cover`, if the cover is used.
pub fn encode_steganographr(message: &str, cover: &str) -> (r: String)
    ensures
        r@ == embed(steg_payload(message@), cover@),
{
    let chars = to_chars(message);
    let alphabet: Vec<char> = vec![ZERO_WIDTH_SPACE, ZERO_WIDTH_NON_JOINER];
    let ghost block_of = |c: char| steg_block(c);
    let mut out: Vec<char> = Vec::new();
    let mut i: usize = 0;
    while i < chars.len()
        invariant
            i <= chars.len(),
            chars@ == message@,
            alphabet@ == seq![ZERO_WIDTH_SPACE, ZERO_WIDTH_NON_JOINER],
            block_of == |c: char| steg_block(c),
            out@ == message@.take(i as int).map_values(block_of).flatten(),
        decreases chars.len() - i,
    {
        proof {
            let before = message@.take(i as int).map_values(block_of);
            assert(message@.take(i + 1).map_values(block_of) =~= before.push(
                block_of(message@[i as int]),
            ));
            before.lemma_flatten_push(block_of(message@[i as int]));
        }
        push_block(&mut out, chars[i], alphabet.as_slice(), 8);
        out.push(WORD_JOINER);
        i += 1;
    }
    assert(message@.take(chars.len() as int) == message@);
    embed_in_cover(out, cover)
}

/// Unicode Tags encoding: each ASCII character of `message` becomes the
/// tag character 0xE0000 above it; other characters are dropped. The
/// payload is placed in the middle of `cover`, if the cover is used.
pub fn encode_tags(message: &str, cover: &str) -> (r: String)
    ensures
        r@ == embed(tags_payload(message@), cover@),
{
    let chars = to_chars(message);
    let mut out: Vec<char> = Vec::new();
    let mut i: usize = 0;
    while i < chars.len()
        invariant
            i <= chars.len(),
            chars@ == message@,
            out@ == tags_payload(message@.take(i as int)),
        decreases chars.len() - i,
    {
        proof {
            message@.lemma_filter_map_take_succ(|c: char| tag_for(c), i as int);
        }
        let cp: u32 = chars[i] as u32;
        if cp < 128 {
            if let Some(c) = char::from_u32(0xE0000 + cp) {
                out.push(c);
            }
        }
        i += 1;
    }
    assert(message@.take(chars.len() as int) == message@);
    embed_in_cover(out, cover)
}

/// N-ary encoding over the alphabet `charset` of `B` symbols: each
/// character of `message` becomes the `g` lowest base-`B` digits of its
/// code point, most significant first, where `g` is the number of digits
/// a 16-bit value takes; the digit `d` is written as `charset[d]`. Higher
/// digits are lost. The payload is placed in the middle of `cover`, if
/// the cover is used.
pub fn encode_330k(message: &str, cover: &str, charset: &[char]) -> (r: String)
    requires
        charset@.len() >= 2,
    ensures
        r@ == embed(nary_payload(message@, charset@), cover@),
{
    let chars = to_chars(message);
    let mut out: Vec<char> = Vec::new();
    push_blocks(&mut out, chars.as_slice(), charset, symbols_per_char(charset.len()));
    embed_in_cover(out, cover)
}

} // verus!
