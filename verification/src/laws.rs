//! What decoding gives back of an encoded message: for each scheme that
//! has both an encoder and a decoder, decoding the bare payload of a
//! message returns the message.
//!
//! A decoder drops the character NUL and refuses a text that is not
//! printable, so the laws speak of printable messages without NUL.

use vstd::prelude::*;
use crate::decode::{
    binary_method, binary_text, bit_of, bit_stream, emit_ascii, emit_scalar,
    spec_decode_direct_binary, spec_decode_steganographr, spec_decode_unicode_tags, split_on,
    steg_group_text, steg_method, steg_text, tag_payload, tags_method, tags_text, DecodeView,
    WORD_JOINER, ZERO_WIDTH_NON_JOINER, ZERO_WIDTH_SPACE,
};
use crate::encode::{
    embed, spec_encode_binary, steg_block, steg_payload, symbol_block, tag_for, tags_payload,
};
use crate::radix::{digits_be, group, lemma_value_of_digits_small, power};
use crate::score::{spec_is_printable, spec_score};
use crate::text::lemma_char_code;

verus! {

/// Every character of `msg` is ASCII and not NUL.
pub open spec fn is_plain_ascii(msg: Seq<char>) -> bool {
    forall|i: int| 0 <= i < msg.len() ==> 0 < (#[trigger] msg[i]) as u32 && (msg[i] as u32) < 128
}

/// An empty cover is not used: the payload stands alone.
pub proof fn lemma_embed_without_cover(payload: Seq<char>)
    ensures
        embed(payload, Seq::empty()) == payload,
{
}

// ---------------------------------------------------------------------
// Unicode Tags
// ---------------------------------------------------------------------

/// The tag characters of an encoded message spell the message.
proof fn lemma_tags_text_of_payload(msg: Seq<char>)
    requires
        is_plain_ascii(msg),
    ensures
        tags_text(tags_payload(msg)) == msg,
    decreases msg.len(),
{
    if msg.len() == 0 {
        assert(tags_payload(msg) =~= Seq::<char>::empty());
        assert(tags_text(Seq::<char>::empty()) =~= Seq::<char>::empty());
        assert(msg =~= Seq::<char>::empty());
    } else {
        let head = msg.drop_last();
        let c = msg.last();
        lemma_tags_text_of_payload(head);
        lemma_char_code(c);
        let t = (0xE0000 + c as u32) as char;
        assert(tag_for(c) == Some(t));
        assert(tags_payload(msg) =~= tags_payload(head).push(t));
        assert(tags_payload(msg).drop_last() =~= tags_payload(head));
        assert(tag_payload(t) == Some(c));
        assert(tags_text(tags_payload(msg)) =~= tags_text(tags_payload(head)).push(c));
        assert(head.push(c) =~= msg);
    }
}

/// Round trip of the Unicode Tags scheme: decoding the encoding of `msg`
/// without a cover yields `msg`.
pub proof fn lemma_tags_round_trip(msg: Seq<char>)
    requires
        is_plain_ascii(msg),
        spec_is_printable(msg),
    ensures
        spec_decode_unicode_tags(embed(tags_payload(msg), Seq::empty())) == Some(
            DecodeView { method: tags_method(), decoded: msg, score: spec_score(msg) },
        ),
{
    lemma_tags_text_of_payload(msg);
}

// ---------------------------------------------------------------------
// Binary
// ---------------------------------------------------------------------

/// Filtering and mapping a concatenation does the same to its parts.
proof fn lemma_filter_map_concat<A, B>(a: Seq<A>, b: Seq<A>, f: spec_fn(A) -> Option<B>)
    ensures
        (a + b).filter_map(f) == a.filter_map(f) + b.filter_map(f),
    decreases b.len(),
{
    if b.len() == 0 {
        assert(a + b =~= a);
        assert(a.filter_map(f) + b.filter_map(f) =~= a.filter_map(f));
    } else {
        lemma_filter_map_concat(a, b.drop_last(), f);
        assert((a + b).drop_last() =~= a + b.drop_last());
        assert((a + b).last() == b.last());
        match f(b.last()) {
            Some(x) => {
                assert(a.filter_map(f) + (b.drop_last().filter_map(f) + seq![x]) =~= (a.filter_map(
                    f,
                ) + b.drop_last().filter_map(f)) + seq![x]);
            },
            None => {},
        }
    }
}

/// Where `f` maps every element of `s` to the element of `t` at the same
/// place, filtering and mapping `s` gives `t`.
proof fn lemma_filter_map_all<A, B>(s: Seq<A>, t: Seq<B>, f: spec_fn(A) -> Option<B>)
    requires
        s.len() == t.len(),
        forall|i: int| 0 <= i < s.len() ==> f(#[trigger] s[i]) == Some(t[i]),
    ensures
        s.filter_map(f) == t,
    decreases s.len(),
{
    if s.len() == 0 {
        assert(t =~= Seq::<B>::empty());
    } else {
        assert forall|i: int| 0 <= i < s.drop_last().len() implies f(
            #[trigger] s.drop_last()[i],
        ) == Some(t.drop_last()[i]) by {
            assert(f(s[i]) == Some(t[i]));
        }
        lemma_filter_map_all(s.drop_last(), t.drop_last(), f);
        assert(f(s[s.len() - 1]) == Some(t[s.len() - 1]));
        assert(t.drop_last() + seq![t.last()] =~= t);
    }
}

/// The bits that the block of a character stands for are the binary
/// digits of its code point.
proof fn lemma_block_bits(c: char, zero: char, one: char, width: nat)
    requires
        zero != one,
    ensures
        bit_stream(symbol_block(c, seq![zero, one], width), zero, one) == digits_be(
            c as nat,
            2,
            width,
        ),
{
    let digits = digits_be(c as nat, 2, width);
    let block = symbol_block(c, seq![zero, one], width);
    assert forall|i: int| 0 <= i < block.len() implies bit_of(#[trigger] block[i], zero, one)
        == Some(digits[i]) by {
        assert(digits[i] == 0 || digits[i] == 1);
    }
    lemma_filter_map_all(block, digits, |c: char| bit_of(c, zero, one));
}

/// The binary digits of all characters of `msg`, `width` for each.
pub open spec fn message_bits(msg: Seq<char>, width: nat) -> Seq<usize> {
    msg.map_values(|c: char| digits_be(c as nat, 2, width)).flatten()
}

/// The bit stream of a binary encoding is made of the binary digits of
/// the characters of the message.
proof fn lemma_encoded_bits(msg: Seq<char>, zero: char, one: char, width: nat)
    requires
        zero != one,
    ensures
        bit_stream(spec_encode_binary(msg, zero, one, width), zero, one) == message_bits(
            msg,
            width,
        ),
    decreases msg.len(),
{
    let alphabet = seq![zero, one];
    let block_of = |c: char| symbol_block(c, alphabet, width);
    let bits_of = |c: char| digits_be(c as nat, 2, width);
    if msg.len() == 0 {
        assert(msg.map_values(block_of) =~= Seq::<Seq<char>>::empty());
        assert(msg.map_values(bits_of) =~= Seq::<Seq<usize>>::empty());
        assert(spec_encode_binary(msg, zero, one, width) =~= Seq::<char>::empty());
        assert(message_bits(msg, width) =~= Seq::<usize>::empty());
    } else {
        let head = msg.drop_last();
        let c = msg.last();
        lemma_encoded_bits(head, zero, one, width);
        assert(msg.map_values(block_of) =~= head.map_values(block_of).push(block_of(c)));
        head.map_values(block_of).lemma_flatten_push(block_of(c));
        assert(msg.map_values(bits_of) =~= head.map_values(bits_of).push(bits_of(c)));
        head.map_values(bits_of).lemma_flatten_push(bits_of(c));
        lemma_filter_map_concat(
            spec_encode_binary(head, zero, one, width),
            block_of(c),
            |c: char| bit_of(c, zero, one),
        );
        lemma_block_bits(c, zero, one, width);
    }
}

/// The text of the first groups of a stream does not depend on what
/// follows them.
proof fn lemma_binary_text_prefix(t: Seq<usize>, u: Seq<usize>, width: nat, k: nat)
    requires
        k * width <= t.len(),
    ensures
        binary_text(t + u, width, k) == binary_text(t, width, k),
    decreases k,
{
    if k > 0 {
        assert((k - 1) * width + width == k * width) by (nonlinear_arith);
        assert((k - 1) * width >= 0) by (nonlinear_arith)
            requires
                k >= 1,
        ;
        lemma_binary_text_prefix(t, u, width, (k - 1) as nat);
        assert(group(t + u, width, k - 1) =~= group(t, width, k - 1));
    }
}

/// Reading the binary digits of a message in groups gives back the
/// message.
proof fn lemma_text_of_message_bits(msg: Seq<char>, width: nat)
    requires
        is_plain_ascii(msg),
        power(2, width) >= 128,
    ensures
        message_bits(msg, width).len() == msg.len() * width,
        binary_text(message_bits(msg, width), width, msg.len()) == msg,
    decreases msg.len(),
{
    let bits_of = |c: char| digits_be(c as nat, 2, width);
    if msg.len() == 0 {
        assert(msg.map_values(bits_of) =~= Seq::<Seq<usize>>::empty());
        assert(message_bits(msg, width) =~= Seq::<usize>::empty());
        assert(msg.len() * width == 0) by (nonlinear_arith)
            requires
                msg.len() == 0,
        ;
        assert(msg =~= Seq::<char>::empty());
    } else {
        let n = msg.len();
        let head = msg.drop_last();
        let c = msg.last();
        lemma_text_of_message_bits(head, width);
        assert(msg.map_values(bits_of) =~= head.map_values(bits_of).push(bits_of(c)));
        head.map_values(bits_of).lemma_flatten_push(bits_of(c));
        let before = message_bits(head, width);
        let all = message_bits(msg, width);
        assert(all == before + bits_of(c));
        assert((n - 1) * width + width == n * width) by (nonlinear_arith);
        assert(group(all, width, n - 1) =~= bits_of(c));
        lemma_binary_text_prefix(before, bits_of(c), width, (n - 1) as nat);
        lemma_char_code(c);
        assert(c == msg[n - 1]);
        assert((c as nat) < 128);
        lemma_value_of_digits_small(c as nat, 2, width);
        assert(emit_ascii(c as nat) == seq![c]);
        assert(head + seq![c] =~= msg);
    }
}

/// Round trip of the binary scheme: the direct binary strategy, with the
/// roles and the 8 bits that `msg` was encoded with, yields `msg`.
pub proof fn lemma_binary_round_trip(msg: Seq<char>, zero: char, one: char)
    requires
        zero != one,
        is_plain_ascii(msg),
        spec_is_printable(msg),
    ensures
        spec_decode_direct_binary(spec_encode_binary(msg, zero, one, 8), zero, one, 8) == Some(
            DecodeView { method: binary_method(zero, one, 8), decoded: msg, score: spec_score(msg) },
        ),
{
    assert(power(2, 8) == 256) by {
        reveal_with_fuel(power, 9);
    }
    lemma_encoded_bits(msg, zero, one, 8);
    lemma_text_of_message_bits(msg, 8);
    let stream = message_bits(msg, 8);
    assert(stream.len() / 8 == msg.len());
}

// ---------------------------------------------------------------------
// Steganographr
// ---------------------------------------------------------------------

/// Characters other than the separator extend the last run of a split.
proof fn lemma_split_extend(s: Seq<char>, run: Seq<char>, sep: char)
    requires
        forall|i: int| 0 <= i < run.len() ==> #[trigger] run[i] != sep,
    ensures
        split_on(s + run, sep) == split_on(s, sep).drop_last().push(split_on(s, sep).last() + run),
        split_on(s, sep).len() >= 1,
    decreases run.len(),
{
    lemma_split_nonempty(s, sep);
    let parts = split_on(s, sep);
    if run.len() == 0 {
        assert(s + run =~= s);
        assert(parts.last() + run =~= parts.last());
        assert(parts.drop_last().push(parts.last()) =~= parts);
    } else {
        let shorter = run.drop_last();
        lemma_split_extend(s, shorter, sep);
        assert((s + run).drop_last() =~= s + shorter);
        assert((s + run).last() == run.last());
        let before = split_on(s + shorter, sep);
        assert(before.last() == parts.last() + shorter);
        assert(before.drop_last() =~= parts.drop_last());
        assert((parts.last() + shorter).push(run.last()) =~= parts.last() + run);
    }
}

/// A split has at least one run.
proof fn lemma_split_nonempty(s: Seq<char>, sep: char)
    ensures
        split_on(s, sep).len() >= 1,
    decreases s.len(),
{
    if s.len() > 0 {
        lemma_split_nonempty(s.drop_last(), sep);
    }
}

/// The blocks of the characters of `msg`, without their separators.
pub open spec fn message_groups(msg: Seq<char>) -> Seq<Seq<char>> {
    msg.map_values(|c: char| symbol_block(c, seq![ZERO_WIDTH_SPACE, ZERO_WIDTH_NON_JOINER], 8))
}

/// Splitting a Steganographr payload at the separators gives the block
/// of each character, and an empty run behind the last separator.
proof fn lemma_split_of_payload(msg: Seq<char>)
    ensures
        split_on(steg_payload(msg), WORD_JOINER) == message_groups(msg).push(Seq::empty()),
    decreases msg.len(),
{
    let block_of = |c: char| steg_block(c);
    if msg.len() == 0 {
        assert(msg.map_values(block_of) =~= Seq::<Seq<char>>::empty());
        assert(steg_payload(msg) =~= Seq::<char>::empty());
        assert(message_groups(msg).push(Seq::empty()) =~= seq![Seq::<char>::empty()]);
    } else {
        let head = msg.drop_last();
        let c = msg.last();
        lemma_split_of_payload(head);
        assert(msg.map_values(block_of) =~= head.map_values(block_of).push(block_of(c)));
        head.map_values(block_of).lemma_flatten_push(block_of(c));
        let bare = symbol_block(c, seq![ZERO_WIDTH_SPACE, ZERO_WIDTH_NON_JOINER], 8);
        let before = steg_payload(head);
        assert(steg_payload(msg) =~= (before + bare).push(WORD_JOINER));
        assert(steg_payload(msg).drop_last() =~= before + bare);
        lemma_split_extend(before, bare, WORD_JOINER);
        let parts = split_on(before, WORD_JOINER);
        assert(parts.last() == Seq::<char>::empty());
        assert(parts.drop_last() =~= message_groups(head));
        assert(parts.last() + bare =~= bare);
        assert(message_groups(msg) =~= message_groups(head).push(bare));
    }
}

/// The blocks of the characters of a message spell the message.
proof fn lemma_text_of_groups(msg: Seq<char>)
    requires
        is_plain_ascii(msg),
    ensures
        steg_text(message_groups(msg)) == msg,
    decreases msg.len(),
{
    if msg.len() == 0 {
        assert(message_groups(msg) =~= Seq::<Seq<char>>::empty());
        assert(msg =~= Seq::<char>::empty());
    } else {
        let head = msg.drop_last();
        let c = msg.last();
        lemma_text_of_groups(head);
        assert(message_groups(msg).drop_last() =~= message_groups(head));
        lemma_block_bits(c, ZERO_WIDTH_SPACE, ZERO_WIDTH_NON_JOINER, 8);
        assert(power(2, 8) == 256) by {
            reveal_with_fuel(power, 9);
        }
        lemma_char_code(c);
        assert(c == msg[msg.len() - 1]);
        assert((c as nat) < 128);
        lemma_value_of_digits_small(c as nat, 2, 8);
        assert(emit_scalar(c as nat) == seq![c]);
        assert(head + seq![c] =~= msg);
    }
}

/// Round trip of the Steganographr scheme: decoding the encoding of `msg`
/// without a cover yields `msg`.
pub proof fn lemma_steganographr_round_trip(msg: Seq<char>)
    requires
        is_plain_ascii(msg),
        spec_is_printable(msg),
    ensures
        spec_decode_steganographr(embed(steg_payload(msg), Seq::empty())) == Some(
            DecodeView { method: steg_method(), decoded: msg, score: spec_score(msg) },
        ),
{
    lemma_split_of_payload(msg);
    lemma_text_of_groups(msg);
    let groups = message_groups(msg);
    assert(groups.push(Seq::empty()).drop_last() =~= groups);
    assert(bit_stream(Seq::<char>::empty(), ZERO_WIDTH_SPACE, ZERO_WIDTH_NON_JOINER)
        =~= Seq::<usize>::empty());
    assert(steg_group_text(Seq::<char>::empty()) =~= Seq::<char>::empty());
    assert(steg_text(groups.push(Seq::empty())) =~= msg);
}

} // verus!
