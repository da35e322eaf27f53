//! The plausibility heuristics applied to a decoded text: the printability
//! gate that a candidate must pass, and the score that ranks candidates.
//!
//! A score is a ratio of integers, so that ranking and thresholds are
//! exact.

use vstd::prelude::*;
use crate::text::{
    is_ascii_alphanumeric, is_control, is_printable_char, is_text_whitespace, lemma_count_step,
    spec_is_ascii_alphanumeric, spec_is_control, spec_is_printable_char, to_chars,
};

verus! {

/// A non-negative rational score `num / den`.
#[derive(Debug, Clone, Copy, PartialEq, Eq, Structural)]
pub struct Score {
    pub num: u128,
    pub den: u128,
}

/// No text scores higher than this.
pub const MAX_SCORE: u128 = 140;

impl Score {
    /// The denominator is positive and fits in 64 bits, and the value is at
    /// most `MAX_SCORE`.
    pub open spec fn wf(self) -> bool {
        0 < self.den <= u64::MAX && self.num <= MAX_SCORE * self.den
    }

    /// `self >= other`, as rational numbers.
    pub open spec fn at_least(self, other: Score) -> bool {
        self.num * other.den >= other.num * self.den
    }

    /// `self > k`, as rational numbers.
    pub open spec fn above(self, k: int) -> bool {
        self.num > k * self.den
    }

    /// Whether the score is strictly greater than the whole number `k`.
    pub fn exceeds(&self, k: u32) -> (r: bool)
        requires
            self.wf(),
        ensures
            r == self.above(k as int),
    {
        assert(k * self.den <= 0xFFFF_FFFF * 0xFFFF_FFFF_FFFF_FFFF) by (nonlinear_arith)
            requires
                k <= 0xFFFF_FFFF,
                self.den <= 0xFFFF_FFFF_FFFF_FFFF,
        ;
        self.num > (k as u128) * self.den
    }

    /// The score in tenths, rounded to the nearest; a score exactly
    /// between two tenths goes to the even one.
    pub open spec fn spec_tenths(self) -> nat {
        let whole = (10 * self.num) / (self.den as int);
        let rest = (10 * self.num) % (self.den as int);
        if 2 * rest > self.den || (2 * rest == self.den && whole % 2 == 1) {
            (whole + 1) as nat
        } else {
            whole as nat
        }
    }

    /// The score in tenths, rounded to the nearest.
    pub fn tenths(&self) -> (r: u128)
        requires
            self.wf(),
        ensures
            r == self.spec_tenths(),
            r <= 10 * MAX_SCORE,
    {
        assert(10 * self.num <= 1400 * 0xFFFF_FFFF_FFFF_FFFF) by (nonlinear_arith)
            requires
                self.num <= 140 * self.den,
                self.den <= 0xFFFF_FFFF_FFFF_FFFF,
        ;
        let scaled: u128 = 10 * self.num;
        let whole: u128 = scaled / self.den;
        let rest: u128 = scaled % self.den;
        proof {
            vstd::arithmetic::div_mod::lemma_fundamental_div_mod(scaled as int, self.den as int);
            assert(whole <= 1400) by (nonlinear_arith)
                requires
                    scaled == self.den * whole + rest,
                    scaled <= 1400 * self.den,
                    rest >= 0,
                    self.den > 0,
            ;
            assert(whole == 1400 ==> rest == 0) by (nonlinear_arith)
                requires
                    scaled == self.den * whole + rest,
                    scaled <= 1400 * self.den,
                    rest >= 0,
                    self.den > 0,
            ;
        }
        if 2 * rest > self.den || (2 * rest == self.den && whole % 2 == 1) {
            whole + 1
        } else {
            whole
        }
    }

    /// Whether `self >= other`, as rational numbers.
    pub fn ge(&self, other: &Score) -> (r: bool)
        requires
            self.wf(),
            other.wf(),
        ensures
            r == self.at_least(*other),
    {
        let q1: u128 = self.num / self.den;
        let r1: u128 = self.num % self.den;
        let q2: u128 = other.num / other.den;
        let r2: u128 = other.num % other.den;
        proof {
            lemma_compare_by_parts(
                self.num as int,
                self.den as int,
                other.num as int,
                other.den as int,
            );
            assert(r1 * other.den <= 0xFFFF_FFFF_FFFF_FFFF * 0xFFFF_FFFF_FFFF_FFFF
                && r2 * self.den <= 0xFFFF_FFFF_FFFF_FFFF * 0xFFFF_FFFF_FFFF_FFFF)
                by (nonlinear_arith)
                requires
                    r1 < self.den <= 0xFFFF_FFFF_FFFF_FFFF,
                    r2 < other.den <= 0xFFFF_FFFF_FFFF_FFFF,
            ;
        }
        q1 > q2 || (q1 == q2 && r1 * other.den >= r2 * self.den)
    }
}

/// Of two scores, one is at least the other.
pub proof fn lemma_at_least_total(a: Score, b: Score)
    ensures
        a.at_least(b) || b.at_least(a),
{
}

/// `at_least` is transitive on scores with positive denominators.
pub proof fn lemma_at_least_transitive(a: Score, b: Score, c: Score)
    requires
        a.den > 0,
        b.den > 0,
        c.den > 0,
        a.at_least(b),
        b.at_least(c),
    ensures
        a.at_least(c),
{
    let (an, ad) = (a.num as int, a.den as int);
    let (bn, bd) = (b.num as int, b.den as int);
    let (cn, cd) = (c.num as int, c.den as int);
    assert((an * bd) * cd >= (bn * ad) * cd) by (nonlinear_arith)
        requires
            an * bd >= bn * ad,
            cd > 0,
    ;
    assert((bn * cd) * ad >= (cn * bd) * ad) by (nonlinear_arith)
        requires
            bn * cd >= cn * bd,
            ad > 0,
    ;
    assert((an * cd) * bd >= (cn * ad) * bd) by (nonlinear_arith)
        requires
            (an * bd) * cd >= (bn * ad) * cd,
            (bn * cd) * ad >= (cn * bd) * ad,
    ;
    assert(an * cd >= cn * ad) by (nonlinear_arith)
        requires
            (an * cd) * bd >= (cn * ad) * bd,
            bd > 0,
    ;
}

/// Two fractions compare as their whole parts do, and by their fractional
/// parts where the whole parts agree.
proof fn lemma_compare_by_parts(n1: int, d1: int, n2: int, d2: int)
    requires
        0 <= n1,
        0 < d1,
        0 <= n2,
        0 < d2,
    ensures
        (n1 * d2 >= n2 * d1) <==> (n1 / d1 > n2 / d2 || (n1 / d1 == n2 / d2 && (n1 % d1) * d2 >= (n2
            % d2) * d1)),
{
    let q1 = n1 / d1;
    let r1 = n1 % d1;
    let q2 = n2 / d2;
    let r2 = n2 % d2;
    vstd::arithmetic::div_mod::lemma_fundamental_div_mod(n1, d1);
    vstd::arithmetic::div_mod::lemma_fundamental_div_mod(n2, d2);
    assert(n1 * d2 - n2 * d1 == (q1 - q2) * (d1 * d2) + (r1 * d2 - r2 * d1)) by (nonlinear_arith)
        requires
            n1 == d1 * q1 + r1,
            n2 == d2 * q2 + r2,
    ;
    assert(r1 * d2 < d1 * d2 && r2 * d1 < d1 * d2 && 0 <= r1 * d2 && 0 <= r2 * d1)
        by (nonlinear_arith)
        requires
            0 <= r1 < d1,
            0 <= r2 < d2,
    ;
    if q1 > q2 {
        assert((q1 - q2) * (d1 * d2) >= d1 * d2) by (nonlinear_arith)
            requires
                q1 - q2 >= 1,
                d1 * d2 > 0,
        ;
    } else if q1 < q2 {
        assert((q1 - q2) * (d1 * d2) <= -(d1 * d2)) by (nonlinear_arith)
            requires
                q1 - q2 <= -1,
                d1 * d2 > 0,
        ;
    } else {
        assert((q1 - q2) * (d1 * d2) == 0) by (nonlinear_arith)
            requires
                q1 - q2 == 0,
        ;
    }
}

/// How many characters of `s` count as printable.
pub open spec fn printable_count(s: Seq<char>) -> nat {
    s.filter(|c: char| spec_is_printable_char(c)).len()
}

/// The printability gate: the text is not empty, and more than half of its
/// characters are printable.
pub open spec fn spec_is_printable(s: Seq<char>) -> bool {
    s.len() > 0 && 2 * printable_count(s) > s.len()
}

/// How many characters of `s` are not control characters.
pub open spec fn non_control_count(s: Seq<char>) -> nat {
    s.filter(|c: char| !spec_is_control(c)).len()
}

/// How many characters of `s` are ASCII letters or digits.
pub open spec fn alnum_count(s: Seq<char>) -> nat {
    s.filter(|c: char| spec_is_ascii_alphanumeric(c)).len()
}

/// Control characters that ordinary text does not hold: all but line feed,
/// carriage return and tab.
pub open spec fn is_harsh_control(c: char) -> bool {
    spec_is_control(c) && !is_text_whitespace(c)
}

/// Length of the run of harsh control characters that `s` ends with.
pub open spec fn trailing_harsh_run(s: Seq<char>) -> nat
    decreases s.len(),
{
    if s.len() == 0 || !is_harsh_control(s.last()) {
        0
    } else {
        1 + trailing_harsh_run(s.drop_last())
    }
}

/// Length of the longest run of consecutive harsh control characters in
/// `s`.
pub open spec fn longest_harsh_run(s: Seq<char>) -> nat
    decreases s.len(),
{
    if s.len() == 0 {
        0
    } else {
        let before = longest_harsh_run(s.drop_last());
        let here = trailing_harsh_run(s);
        if here > before {
            here
        } else {
            before
        }
    }
}

/// Whether `pat` occurs in `s` starting at position `i`.
pub open spec fn occurs_at(s: Seq<char>, pat: Seq<char>, i: int) -> bool {
    0 <= i && i + pat.len() <= s.len() && s.subrange(i, i + pat.len()) == pat
}

/// Whether `pat` occurs somewhere in `s` as a contiguous run.
pub open spec fn contains_run(s: Seq<char>, pat: Seq<char>) -> bool {
    exists|i: int| occurs_at(s, pat, i)
}

/// Whether `s` holds one of the markers that open a capture-the-flag
/// answer: `flag{`, `ctf{`, `FLAG{`, `CTF{`, `key{`, `KEY{`.
pub open spec fn has_flag_marker(s: Seq<char>) -> bool {
    ||| contains_run(s, seq!['f', 'l', 'a', 'g', '{'])
    ||| contains_run(s, seq!['c', 't', 'f', '{'])
    ||| contains_run(s, seq!['F', 'L', 'A', 'G', '{'])
    ||| contains_run(s, seq!['C', 'T', 'F', '{'])
    ||| contains_run(s, seq!['k', 'e', 'y', '{'])
    ||| contains_run(s, seq!['K', 'E', 'Y', '{'])
}

/// The length bonus: the length itself, capped at 20, for texts of three
/// characters or more.
pub open spec fn length_bonus(len: nat) -> nat {
    if len < 3 {
        0
    } else if len < 20 {
        len
    } else {
        20
    }
}

/// The bonuses that do not depend on a fraction: for length, for holding a
/// space, and for holding a flag marker.
pub open spec fn score_bonus(s: Seq<char>) -> nat {
    length_bonus(s.len()) + (if s.contains(' ') {
        10nat
    } else {
        0nat
    }) + (if has_flag_marker(s) {
        50nat
    } else {
        0nat
    })
}

/// Denominator of the score of `s`: its length, or 1 for the empty text.
pub open spec fn score_den(s: Seq<char>) -> nat {
    if s.len() == 0 {
        1
    } else {
        s.len()
    }
}

/// Numerator of the score of `s` over `score_den(s)`.
///
/// The score is `30 * (share of non-control characters) + 30 * (share of
/// ASCII letters and digits) + bonuses - 5 * (longest run of harsh control
/// characters)`, and 0 where that would be negative or the text is empty.
pub open spec fn score_num(s: Seq<char>) -> nat {
    if s.len() == 0 {
        0
    } else {
        let gain = 30 * non_control_count(s) + 30 * alnum_count(s) + s.len() * score_bonus(s);
        let penalty = 5 * longest_harsh_run(s) * s.len();
        if gain > penalty {
            (gain - penalty) as nat
        } else {
            0
        }
    }
}

/// The score of `s`.
pub open spec fn spec_score(s: Seq<char>) -> Score {
    Score { num: score_num(s) as u128, den: score_den(s) as u128 }
}

/// Whether `pat` occurs in `s` at position `i`.
fn matches_at(s: &[char], pat: &[char], i: usize) -> (r: bool)
    requires
        i + pat.len() <= s.len(),
    ensures
        r == occurs_at(s@, pat@, i as int),
{
    let mut k: usize = 0;
    while k < pat.len()
        invariant
            k <= pat.len(),
            i + pat.len() <= s.len(),
            forall|j: int| 0 <= j < k ==> s@[i + j] == pat@[j],
        decreases pat.len() - k,
    {
        if s[i + k] != pat[k] {
            return false;
        }
        k += 1;
    }
    proof {
        assert(s@.subrange(i as int, i + pat.len()) =~= pat@);
    }
    true
}

/// Whether `pat` occurs somewhere in `s` as a contiguous run.
pub fn contains_chars(s: &[char], pat: &[char]) -> (r: bool)
    ensures
        r == contains_run(s@, pat@),
{
    if pat.len() > s.len() {
        return false;
    }
    let last: usize = s.len() - pat.len();
    let mut i: usize = 0;
    while i < last
        invariant
            last == s.len() - pat.len(),
            i <= last,
            forall|j: int| 0 <= j < i ==> !occurs_at(s@, pat@, j),
        decreases last - i,
    {
        if matches_at(s, pat, i) {
            return true;
        }
        i += 1;
    }
    matches_at(s, pat, last)
}

/// Whether `s` holds one of the flag markers.
fn contains_flag_marker(s: &[char]) -> (r: bool)
    ensures
        r == has_flag_marker(s@),
{
    let flag_lower: Vec<char> = vec!['f', 'l', 'a', 'g', '{'];
    let ctf_lower: Vec<char> = vec!['c', 't', 'f', '{'];
    let flag_upper: Vec<char> = vec!['F', 'L', 'A', 'G', '{'];
    let ctf_upper: Vec<char> = vec!['C', 'T', 'F', '{'];
    let key_lower: Vec<char> = vec!['k', 'e', 'y', '{'];
    let key_upper: Vec<char> = vec!['K', 'E', 'Y', '{'];
    contains_chars(s, flag_lower.as_slice()) || contains_chars(s, ctf_lower.as_slice())
        || contains_chars(s, flag_upper.as_slice()) || contains_chars(s, ctf_upper.as_slice())
        || contains_chars(s, key_lower.as_slice()) || contains_chars(s, key_upper.as_slice())
}

/// The printability gate on a sequence of characters.
pub fn is_printable_chars(s: &[char]) -> (r: bool)
    ensures
        r == spec_is_printable(s@),
{
    if s.len() == 0 {
        return false;
    }
    let mut printable: usize = 0;
    let mut i: usize = 0;
    while i < s.len()
        invariant
            i <= s.len(),
            printable == printable_count(s@.take(i as int)),
            printable <= i,
        decreases s.len() - i,
    {
        proof {
            lemma_count_step(s@, |c: char| spec_is_printable_char(c), i as int);
        }
        if is_printable_char(s[i]) {
            printable += 1;
        }
        i += 1;
    }
    assert(s@.take(s.len() as int) == s@);
    printable > s.len() - printable
}

/// The printability gate: whether more than half of the characters of a
/// non-empty `text` are printable.
pub fn is_printable(text: &str) -> (r: bool)
    ensures
        r == spec_is_printable(text@),
{
    let chars = to_chars(text);
    is_printable_chars(chars.as_slice())
}

/// The score of a sequence of characters.
pub fn score_chars(s: &[char]) -> (r: Score)
    ensures
        r.num == score_num(s@),
        r.den == score_den(s@),
        r == spec_score(s@),
        r.wf(),
{
    if s.len() == 0 {
        return Score { num: 0, den: 1 };
    }
    let len: usize = s.len();
    let mut non_control: usize = 0;
    let mut alnum: usize = 0;
    let mut has_space: bool = false;
    let mut longest: usize = 0;
    let mut current: usize = 0;
    let mut i: usize = 0;
    while i < len
        invariant
            len == s.len(),
            i <= len,
            non_control == non_control_count(s@.take(i as int)),
            alnum == alnum_count(s@.take(i as int)),
            has_space == s@.take(i as int).contains(' '),
            current == trailing_harsh_run(s@.take(i as int)),
            longest == longest_harsh_run(s@.take(i as int)),
            non_control <= i,
            alnum <= i,
            current <= i,
            longest <= i,
        decreases len - i,
    {
        let c: char = s[i];
        proof {
            lemma_count_step(s@, |c: char| !spec_is_control(c), i as int);
            lemma_count_step(s@, |c: char| spec_is_ascii_alphanumeric(c), i as int);
            let before = s@.take(i as int);
            let after = s@.take(i + 1);
            assert(after == before.push(c));
            assert(after.drop_last() == before);
            assert(after.last() == c);
            assert(after.contains(' ') == (before.contains(' ') || c == ' ')) by {
                if before.contains(' ') {
                    let k = choose|k: int| 0 <= k < before.len() && before[k] == ' ';
                    assert(after[k] == ' ');
                }
                if c == ' ' {
                    assert(after[i as int] == ' ');
                }
            }
        }
        if !is_control(c) {
            non_control += 1;
        }
        if is_ascii_alphanumeric(c) {
            alnum += 1;
        }
        if c == ' ' {
            has_space = true;
        }
        if is_control(c) && c != '\n' && c != '\r' && c != '\t' {
            current += 1;
            if current > longest {
                longest = current;
            }
        } else {
            current = 0;
        }
        i += 1;
    }
    assert(s@.take(len as int) == s@);
    let has_marker: bool = contains_flag_marker(s);
    let mut bonus: u128 = 0;
    if len >= 3 {
        bonus = if len < 20 {
            len as u128
        } else {
            20
        };
    }
    if has_space {
        bonus += 10;
    }
    if has_marker {
        bonus += 50;
    }
    assert(bonus == score_bonus(s@));
    let len_wide: u128 = len as u128;
    proof {
        assert(len_wide * bonus <= len_wide * 80) by (nonlinear_arith)
            requires
                bonus <= 80,
        ;
        assert(len_wide * 80 <= 0xFFFF_FFFF_FFFF_FFFF * 80) by (nonlinear_arith)
            requires
                len_wide <= 0xFFFF_FFFF_FFFF_FFFF,
        ;
    }
    let gain: u128 = 30 * (non_control as u128) + 30 * (alnum as u128) + len_wide * bonus;
    if longest >= 28 {
        proof {
            assert(5 * longest * len_wide >= 140 * len_wide) by (nonlinear_arith)
                requires
                    longest >= 28,
                    len_wide >= 0,
            ;
        }
        return Score { num: 0, den: len_wide };
    }
    proof {
        assert(5 * longest * len_wide <= 135 * len_wide) by (nonlinear_arith)
            requires
                longest < 28,
                len_wide >= 0,
        ;
        assert(135 * len_wide <= 0xFFFF_FFFF_FFFF_FFFF * 135) by (nonlinear_arith)
            requires
                len_wide <= 0xFFFF_FFFF_FFFF_FFFF,
        ;
    }
    let penalty: u128 = 5 * (longest as u128) * len_wide;
    let num: u128 = if gain > penalty {
        gain - penalty
    } else {
        0
    };
    Score { num, den: len_wide }
}

/// The plausibility score of `text`: 0 for the empty text, never negative.
pub fn score(text: &str) -> (r: Score)
    ensures
        r.num == score_num(text@),
        r.den == score_den(text@),
        r == spec_score(text@),
        r.wf(),
        text@.len() == 0 ==> r.num == 0,
{
    let chars = to_chars(text);
    score_chars(chars.as_slice())
}

} // verus!
