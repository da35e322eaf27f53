//! Text from the bytes of a file whose encoding is not known: a byte
//! order mark decides if there is one; otherwise UTF-8 is tried, then
//! UTF-16, and Latin-1 takes whatever is left.

use vstd::prelude::*;
use vstd::slice::slice_subrange;
use vstd::string::StringSliceAdditionalSpecFns;
use vstd::utf8::{decode_utf8, encode_utf8_decode_utf8, valid_utf8};
use crate::score::printable_count;
use crate::text::{is_printable_char, lemma_count_step, spec_is_printable_char, string_from_chars};

verus! {

/// `core::str::Utf8Error`, the error of `core::str::from_utf8`; nothing
/// is read from it.
#[verifier::external_type_specification]
#[verifier::external_body]
pub struct ExUtf8Error(core::str::Utf8Error);

/// `core::str::from_utf8` succeeds exactly on well-formed UTF-8, and the
/// string it returns is made of the bytes it was given.
pub assume_specification<'a>[ core::str::from_utf8 ](v: &'a [u8]) -> (r: Result<
    &'a str,
    core::str::Utf8Error,
>)
    ensures
        r is Ok <==> valid_utf8(v@),
        r is Ok ==> r->Ok_0.spec_bytes() == v@,
;

/// The character that stands for what cannot be decoded.
pub const REPLACEMENT: char = '\u{FFFD}';

/// Whether `raw` begins with the bytes `mark`.
pub open spec fn starts_with(raw: Seq<u8>, mark: Seq<u8>) -> bool {
    raw.len() >= mark.len() && raw.take(mark.len() as int) == mark
}

/// The 16-bit units of `raw`, two bytes each in the given byte order. A
/// last byte without a partner is left out.
pub open spec fn units_of(raw: Seq<u8>, big_endian: bool) -> Seq<u16> {
    Seq::new(
        raw.len() / 2,
        |k: int|
            if big_endian {
                (raw[2 * k] * 256 + raw[2 * k + 1]) as u16
            } else {
                (raw[2 * k + 1] * 256 + raw[2 * k]) as u16
            },
    )
}

/// First half of a surrogate pair.
pub open spec fn is_high_surrogate(u: u16) -> bool {
    0xD800 <= u <= 0xDBFF
}

/// Second half of a surrogate pair.
pub open spec fn is_low_surrogate(u: u16) -> bool {
    0xDC00 <= u <= 0xDFFF
}

/// The character that a surrogate pair stands for.
pub open spec fn pair_char(high: u16, low: u16) -> char {
    (0x10000 + (high - 0xD800) * 0x400 + (low - 0xDC00)) as char
}

/// The text that `units` encode in UTF-16. A surrogate without its
/// partner becomes the replacement character.
pub open spec fn utf16_text(units: Seq<u16>) -> Seq<char>
    decreases units.len(),
{
    if units.len() == 0 {
        Seq::empty()
    } else if !is_high_surrogate(units[0]) && !is_low_surrogate(units[0]) {
        seq![units[0] as char] + utf16_text(units.skip(1))
    } else if is_high_surrogate(units[0]) && units.len() >= 2 && is_low_surrogate(units[1]) {
        seq![pair_char(units[0], units[1])] + utf16_text(units.skip(2))
    } else {
        seq![REPLACEMENT] + utf16_text(units.skip(1))
    }
}

/// The text that `raw` encodes in Latin-1: each byte is the code point
/// of one character.
pub open spec fn latin1_text(raw: Seq<u8>) -> Seq<char> {
    raw.map_values(|b: u8| b as char)
}

/// Whether a text decoded on a guess is taken for text: it is not empty
/// and more than seven in ten of its characters are printable.
pub open spec fn looks_like_text(s: Seq<char>) -> bool {
    s.len() > 0 && 10 * printable_count(s) > 7 * s.len()
}

/// The text of a file with the bytes `raw`:
/// - behind a UTF-8 byte order mark, the rest as UTF-8, if it is
///   well-formed;
/// - behind a UTF-16 byte order mark, the rest as UTF-16 in that order;
/// - the whole as UTF-8, if it is well-formed;
/// - the whole as little-endian UTF-16, if its length is even and the
///   result looks like text;
/// - the whole as Latin-1 otherwise.
pub open spec fn spec_decode_bytes(raw: Seq<u8>) -> Seq<char> {
    if starts_with(raw, seq![0xEFu8, 0xBBu8, 0xBFu8]) && valid_utf8(raw.skip(3)) {
        decode_utf8(raw.skip(3))
    } else if starts_with(raw, seq![0xFFu8, 0xFEu8]) {
        utf16_text(units_of(raw.skip(2), false))
    } else if starts_with(raw, seq![0xFEu8, 0xFFu8]) {
        utf16_text(units_of(raw.skip(2), true))
    } else if valid_utf8(raw) {
        decode_utf8(raw)
    } else if raw.len() % 2 == 0 && looks_like_text(utf16_text(units_of(raw, false))) {
        utf16_text(units_of(raw, false))
    } else {
        latin1_text(raw)
    }
}

/// The text of `raw` as UTF-8, if it is well-formed.
fn decode_as_utf8(raw: &[u8]) -> (r: Option<String>)
    ensures
        match r {
            Some(s) => valid_utf8(raw@) && s@ == decode_utf8(raw@),
            None => !valid_utf8(raw@),
        },
{
    match core::str::from_utf8(raw) {
        Ok(s) => {
            proof {
                encode_utf8_decode_utf8(s@);
            }
            Some(s.to_owned())
        },
        Err(_) => None,
    }
}

/// The 16-bit units of `raw`.
fn collect_units(raw: &[u8], big_endian: bool) -> (r: Vec<u16>)
    ensures
        r@ == units_of(raw@, big_endian),
{
    let count: usize = raw.len() / 2;
    let mut r: Vec<u16> = Vec::new();
    let mut k: usize = 0;
    while k < count
        invariant
            k <= count,
            count == raw@.len() / 2,
            raw@.len() <= usize::MAX,
            r@ == units_of(raw@, big_endian).take(k as int),
        decreases count - k,
    {
        let first: u16 = raw[2 * k] as u16;
        let second: u16 = raw[2 * k + 1] as u16;
        let unit: u16 = if big_endian {
            first * 256 + second
        } else {
            second * 256 + first
        };
        r.push(unit);
        k += 1;
    }
    r
}

/// The text that `units` encode in UTF-16.
fn decode_utf16(units: &[u16]) -> (r: Vec<char>)
    ensures
        r@ == utf16_text(units@),
{
    let mut out: Vec<char> = Vec::new();
    let mut i: usize = 0;
    assert(units@.skip(0) == units@);
    while i < units.len()
        invariant
            i <= units.len(),
            out@ + utf16_text(units@.skip(i as int)) == utf16_text(units@),
        decreases units.len() - i,
    {
        let u: u16 = units[i];
        let ghost rest = units@.skip(i as int);
        let ghost before = out@;
        proof {
            assert(rest[0] == u);
            assert(rest.skip(1) == units@.skip(i + 1));
        }
        if u < 0xD800 || u > 0xDFFF {
            match char::from_u32(u as u32) {
                Some(c) => {
                    out.push(c);
                },
                None => {},
            }
            assert(out@ + utf16_text(units@.skip(i + 1)) =~= before + utf16_text(rest));
            i += 1;
        } else if u <= 0xDBFF && units.len() - i >= 2 && 0xDC00 <= units[i + 1] && units[i + 1]
            <= 0xDFFF {
            let low: u16 = units[i + 1];
            let value: u32 = 0x10000 + ((u - 0xD800) as u32) * 0x400 + ((low - 0xDC00) as u32);
            proof {
                assert(rest[1] == low);
                assert(rest.skip(2) == units@.skip(i + 2));
            }
            match char::from_u32(value) {
                Some(c) => {
                    out.push(c);
                },
                None => {},
            }
            assert(out@ + utf16_text(units@.skip(i + 2)) =~= before + utf16_text(rest));
            i += 2;
        } else {
            proof {
                if units@.len() - i >= 2 {
                    assert(rest[1] == units@[i + 1]);
                }
            }
            out.push(REPLACEMENT);
            assert(out@ + utf16_text(units@.skip(i + 1)) =~= before + utf16_text(rest));
            i += 1;
        }
    }
    assert(utf16_text(units@.skip(units@.len() as int)) =~= Seq::<char>::empty());
    assert(out@ + Seq::<char>::empty() =~= out@);
    out
}

/// Whether a text decoded on a guess is taken for text.
fn taken_for_text(s: &[char]) -> (r: bool)
    ensures
        r == looks_like_text(s@),
{
    if s.len() == 0 {
        return false;
    }
    let mut printable: usize = 0;
    let mut i: usize = 0;
    while i < s.len()
        invariant
            i <= s.len(),
            printable == printable_count(s@.take(i as int)),
            printable <= i,
        decreases s.len() - i,
    {
        proof {
            lemma_count_step(s@, |c: char| spec_is_printable_char(c), i as int);
        }
        if is_printable_char(s[i]) {
            printable += 1;
        }
        i += 1;
    }
    assert(s@.take(s.len() as int) == s@);
    10 * (printable as u128) > 7 * (s.len() as u128)
}

/// The text that `raw` encodes in Latin-1.
fn decode_latin1(raw: &[u8]) -> (r: Vec<char>)
    ensures
        r@ == latin1_text(raw@),
{
    let mut out: Vec<char> = Vec::new();
    let mut i: usize = 0;
    while i < raw.len()
        invariant
            i <= raw.len(),
            out@ == latin1_text(raw@).take(i as int),
        decreases raw.len() - i,
    {
        out.push(raw[i] as char);
        i += 1;
    }
    out
}

/// The text of a file with the bytes `raw`. Every sequence of bytes is
/// some text: Latin-1 takes what nothing else does.
pub fn decode_bytes(raw: &[u8]) -> (r: String)
    ensures
        r@ == spec_decode_bytes(raw@),
{
    let n: usize = raw.len();
    if n >= 3 && raw[0] == 0xEF && raw[1] == 0xBB && raw[2] == 0xBF {
        assert(raw@.take(3) =~= seq![0xEFu8, 0xBBu8, 0xBFu8]);
        let rest = slice_subrange(raw, 3, n);
        if let Some(s) = decode_as_utf8(rest) {
            return s;
        }
    } else {
        assert(!starts_with(raw@, seq![0xEFu8, 0xBBu8, 0xBFu8]));
    }
    if n >= 2 && raw[0] == 0xFF && raw[1] == 0xFE {
        assert(raw@.take(2) =~= seq![0xFFu8, 0xFEu8]);
        let rest = slice_subrange(raw, 2, n);
        let units = collect_units(rest, false);
        let text = decode_utf16(units.as_slice());
        return string_from_chars(text.as_slice());
    }
    if n >= 2 && raw[0] == 0xFE && raw[1] == 0xFF {
        assert(raw@.take(2) =~= seq![0xFEu8, 0xFFu8]);
        let rest = slice_subrange(raw, 2, n);
        let units = collect_units(rest, true);
        let text = decode_utf16(units.as_slice());
        return string_from_chars(text.as_slice());
    }
    if let Some(s) = decode_as_utf8(raw) {
        return s;
    }
    if n % 2 == 0 {
        let units = collect_units(raw, false);
        let text = decode_utf16(units.as_slice());
        if taken_for_text(text.as_slice()) {
            return string_from_chars(text.as_slice());
        }
    }
    let text = decode_latin1(raw);
    string_from_chars(text.as_slice())
}

} // verus!
