//! Positional numerals: the value of a run of digits in a base, the digits
//! of a value, and the saturating accumulation the decoders use.

use vstd::prelude::*;
use vstd::arithmetic::div_mod::{lemma_breakdown, lemma_div_denominator};

verus! {

/// `u32::saturating_mul` multiplies, and yields `u32::MAX` where the
/// product does not fit.
pub assume_specification[ u32::saturating_mul ](x: u32, y: u32) -> (r: u32)
    ensures
        r == (if x * y > u32::MAX {
            u32::MAX
        } else {
            (x * y) as u32
        }),
;

/// `base` to the power `e`.
pub open spec fn power(base: nat, e: nat) -> nat
    decreases e,
{
    if e == 0 {
        1
    } else {
        base * power(base, (e - 1) as nat)
    }
}

/// The number that `digits` denote in base `base`, most significant digit
/// first.
pub open spec fn value_be(digits: Seq<usize>, base: nat) -> nat
    decreases digits.len(),
{
    if digits.len() == 0 {
        0
    } else {
        value_be(digits.drop_last(), base) * base + digits.last() as nat
    }
}

/// The digit of weight `base^k` in the base-`base` numeral of `v`.
pub open spec fn digit_at(v: nat, base: nat, k: nat) -> nat {
    (v / power(base, k)) % base
}

/// The `n` lowest digits of `v` in base `base`, most significant first.
/// Digits of higher weight are lost.
pub open spec fn digits_be(v: nat, base: nat, n: nat) -> Seq<usize> {
    Seq::new(n, |i: int| digit_at(v, base, (n - 1 - i) as nat) as usize)
}

/// The `k`-th group of `size` digits of `digits`.
pub open spec fn group(digits: Seq<usize>, size: nat, k: int) -> Seq<usize> {
    digits.subrange(k * size, k * size + size)
}

/// `v`, or `u32::MAX` where `v` is larger.
pub open spec fn saturate(v: nat) -> u32 {
    if v > u32::MAX {
        u32::MAX
    } else {
        v as u32
    }
}

/// How many digits in base `base` a 16-bit value takes: the least `g` with
/// `base^g >= 65536`.
pub open spec fn group_width(base: nat) -> nat {
    if base >= 65536 {
        1
    } else if base >= 256 {
        2
    } else if base >= 41 {
        3
    } else if base >= 16 {
        4
    } else if base >= 10 {
        5
    } else if base >= 7 {
        6
    } else if base >= 5 {
        7
    } else if base == 4 {
        8
    } else if base == 3 {
        11
    } else {
        16
    }
}

/// A power of a positive base is positive.
pub proof fn lemma_power_positive(base: nat, e: nat)
    requires
        base > 0,
    ensures
        power(base, e) > 0,
    decreases e,
{
    if e > 0 {
        lemma_power_positive(base, (e - 1) as nat);
        assert(base * power(base, (e - 1) as nat) > 0) by (nonlinear_arith)
            requires
                base > 0,
                power(base, (e - 1) as nat) > 0,
        ;
    }
}

/// Powers grow with the base.
pub proof fn lemma_power_monotonic(a: nat, b: nat, e: nat)
    requires
        a <= b,
    ensures
        power(a, e) <= power(b, e),
    decreases e,
{
    if e > 0 {
        lemma_power_monotonic(a, b, (e - 1) as nat);
        assert(a * power(a, (e - 1) as nat) <= b * power(b, (e - 1) as nat)) by (nonlinear_arith)
            requires
                a <= b,
                power(a, (e - 1) as nat) <= power(b, (e - 1) as nat),
        ;
    }
}

/// One more factor: `power(b, e)` is `b` times `power(b, e - 1)`.
proof fn lemma_power_unfold(b: nat, e: nat, below: nat)
    requires
        e >= 1,
        power(b, (e - 1) as nat) == below,
    ensures
        power(b, e) == b * below,
{
}

/// `group_width(base)` digits reach 65536, and one digit fewer does not.
pub proof fn lemma_group_width_is_least(base: nat)
    requires
        base >= 2,
    ensures
        1 <= group_width(base) <= 16,
        power(base, group_width(base)) >= 65536,
        power(base, (group_width(base) - 1) as nat) < 65536,
{
    let g = group_width(base);
    if base >= 65536 {
        lemma_power_unfold(base, 1, 1);
    } else if base >= 256 {
        lemma_power_unfold(256, 1, 1);
        lemma_power_unfold(256, 2, 256);
        lemma_power_unfold(65535, 1, 1);
        lemma_power_monotonic(256, base, 2);
        lemma_power_monotonic(base, 65535, 1);
    } else if base >= 41 {
        lemma_power_unfold(41, 1, 1);
        lemma_power_unfold(41, 2, 41);
        lemma_power_unfold(41, 3, 1681);
        lemma_power_unfold(255, 1, 1);
        lemma_power_unfold(255, 2, 255);
        lemma_power_monotonic(41, base, 3);
        lemma_power_monotonic(base, 255, 2);
    } else if base >= 16 {
        lemma_power_unfold(16, 1, 1);
        lemma_power_unfold(16, 2, 16);
        lemma_power_unfold(16, 3, 256);
        lemma_power_unfold(16, 4, 4096);
        lemma_power_unfold(40, 1, 1);
        lemma_power_unfold(40, 2, 40);
        lemma_power_unfold(40, 3, 1600);
        lemma_power_monotonic(16, base, 4);
        lemma_power_monotonic(base, 40, 3);
    } else if base >= 10 {
        lemma_power_unfold(10, 1, 1);
        lemma_power_unfold(10, 2, 10);
        lemma_power_unfold(10, 3, 100);
        lemma_power_unfold(10, 4, 1000);
        lemma_power_unfold(10, 5, 10000);
        lemma_power_unfold(15, 1, 1);
        lemma_power_unfold(15, 2, 15);
        lemma_power_unfold(15, 3, 225);
        lemma_power_unfold(15, 4, 3375);
        lemma_power_monotonic(10, base, 5);
        lemma_power_monotonic(base, 15, 4);
    } else if base >= 7 {
        lemma_power_unfold(7, 1, 1);
        lemma_power_unfold(7, 2, 7);
        lemma_power_unfold(7, 3, 49);
        lemma_power_unfold(7, 4, 343);
        lemma_power_unfold(7, 5, 2401);
        lemma_power_unfold(7, 6, 16807);
        lemma_power_unfold(9, 1, 1);
        lemma_power_unfold(9, 2, 9);
        lemma_power_unfold(9, 3, 81);
        lemma_power_unfold(9, 4, 729);
        lemma_power_unfold(9, 5, 6561);
        lemma_power_monotonic(7, base, 6);
        lemma_power_monotonic(base, 9, 5);
    } else if base >= 5 {
        lemma_power_unfold(5, 1, 1);
        lemma_power_unfold(5, 2, 5);
        lemma_power_unfold(5, 3, 25);
        lemma_power_unfold(5, 4, 125);
        lemma_power_unfold(5, 5, 625);
        lemma_power_unfold(5, 6, 3125);
        lemma_power_unfold(5, 7, 15625);
        lemma_power_unfold(6, 1, 1);
        lemma_power_unfold(6, 2, 6);
        lemma_power_unfold(6, 3, 36);
        lemma_power_unfold(6, 4, 216);
        lemma_power_unfold(6, 5, 1296);
        lemma_power_unfold(6, 6, 7776);
        lemma_power_monotonic(5, base, 7);
        lemma_power_monotonic(base, 6, 6);
    } else if base == 4 {
        lemma_power_unfold(4, 1, 1);
        lemma_power_unfold(4, 2, 4);
        lemma_power_unfold(4, 3, 16);
        lemma_power_unfold(4, 4, 64);
        lemma_power_unfold(4, 5, 256);
        lemma_power_unfold(4, 6, 1024);
        lemma_power_unfold(4, 7, 4096);
        lemma_power_unfold(4, 8, 16384);
        lemma_power_monotonic(4, base, 8);
        lemma_power_monotonic(base, 4, 7);
    } else if base == 3 {
        lemma_power_unfold(3, 1, 1);
        lemma_power_unfold(3, 2, 3);
        lemma_power_unfold(3, 3, 9);
        lemma_power_unfold(3, 4, 27);
        lemma_power_unfold(3, 5, 81);
        lemma_power_unfold(3, 6, 243);
        lemma_power_unfold(3, 7, 729);
        lemma_power_unfold(3, 8, 2187);
        lemma_power_unfold(3, 9, 6561);
        lemma_power_unfold(3, 10, 19683);
        lemma_power_unfold(3, 11, 59049);
        lemma_power_monotonic(3, base, 11);
        lemma_power_monotonic(base, 3, 10);
    } else {
        lemma_power_unfold(2, 1, 1);
        lemma_power_unfold(2, 2, 2);
        lemma_power_unfold(2, 3, 4);
        lemma_power_unfold(2, 4, 8);
        lemma_power_unfold(2, 5, 16);
        lemma_power_unfold(2, 6, 32);
        lemma_power_unfold(2, 7, 64);
        lemma_power_unfold(2, 8, 128);
        lemma_power_unfold(2, 9, 256);
        lemma_power_unfold(2, 10, 512);
        lemma_power_unfold(2, 11, 1024);
        lemma_power_unfold(2, 12, 2048);
        lemma_power_unfold(2, 13, 4096);
        lemma_power_unfold(2, 14, 8192);
        lemma_power_unfold(2, 15, 16384);
        lemma_power_unfold(2, 16, 32768);
    }
}

/// The lowest digit of a numeral is the remainder by the base, and the
/// digits before it are those of the quotient.
pub proof fn lemma_digits_shift(v: nat, base: nat, n: nat)
    requires
        1 <= base <= usize::MAX,
        n >= 1,
    ensures
        digits_be(v, base, n) == digits_be(v / base, base, (n - 1) as nat).push(
            (v % base) as usize,
        ),
{
    let left = digits_be(v, base, n);
    let right = digits_be(v / base, base, (n - 1) as nat).push((v % base) as usize);
    assert(left.len() == right.len());
    assert forall|i: int| 0 <= i < n implies left[i] == right[i] by {
        let k = (n - 1 - i) as nat;
        if k == 0 {
            assert(power(base, 0) == 1);
            assert(v / 1 == v);
        } else {
            let p = power(base, (k - 1) as nat);
            lemma_power_positive(base, (k - 1) as nat);
            assert(power(base, k) == base * p);
            lemma_div_denominator(v as int, base as int, p as int);
            assert(right[i] == digit_at(v / base, base, (k - 1) as nat) as usize);
        }
    }
    assert(left =~= right);
}

/// Reading back the `n` lowest digits of `v` gives `v` modulo `base^n`.
pub proof fn lemma_value_of_digits(v: nat, base: nat, n: nat)
    requires
        1 <= base <= usize::MAX,
    ensures
        value_be(digits_be(v, base, n), base) == v % power(base, n),
    decreases n,
{
    if n == 0 {
        assert(digits_be(v, base, 0).len() == 0);
    } else {
        let m = (n - 1) as nat;
        lemma_digits_shift(v, base, n);
        lemma_value_of_digits(v / base, base, m);
        let rest = digits_be(v / base, base, m);
        let all = digits_be(v, base, n);
        assert(all.drop_last() == rest);
        assert(all.last() == (v % base) as usize);
        lemma_power_positive(base, m);
        lemma_breakdown(v as int, base as int, power(base, m) as int);
        assert(((v / base) % power(base, m)) * base == base * ((v / base) % power(base, m)))
            by (nonlinear_arith);
    }
}

/// A value below `base^n` is read back unchanged from its `n` lowest
/// digits.
pub proof fn lemma_value_of_digits_small(v: nat, base: nat, n: nat)
    requires
        1 <= base <= usize::MAX,
        v < power(base, n),
    ensures
        value_be(digits_be(v, base, n), base) == v,
{
    lemma_value_of_digits(v, base, n);
    vstd::arithmetic::div_mod::lemma_small_mod(v, power(base, n));
}

/// `x` as a `u32`, or `u32::MAX` where it does not fit.
fn clamp_to_u32(x: usize) -> (r: u32)
    ensures
        r == saturate(x as nat),
{
    if x > 0xFFFF_FFFF {
        0xFFFF_FFFF
    } else {
        x as u32
    }
}

/// Accumulates `digits`, most significant first, as a number in base
/// `base`, saturating at `u32::MAX` instead of overflowing.
pub fn accumulate(digits: &[usize], base: usize) -> (r: u32)
    ensures
        r == saturate(value_be(digits@, base as nat)),
{
    let b: u32 = clamp_to_u32(base);
    let mut value: u32 = 0;
    let mut i: usize = 0;
    while i < digits.len()
        invariant
            i <= digits.len(),
            b == saturate(base as nat),
            value == saturate(value_be(digits@.take(i as int), base as nat)),
        decreases digits.len() - i,
    {
        let d: u32 = clamp_to_u32(digits[i]);
        proof {
            let before = digits@.take(i as int);
            let after = digits@.take(i + 1);
            assert(after.drop_last() == before);
            let v = value_be(before, base as nat);
            lemma_saturating_step(v, base as nat, digits@[i as int] as nat);
        }
        value = value.saturating_mul(b).saturating_add(d);
        i += 1;
    }
    assert(digits@.take(digits.len() as int) == digits@);
    value
}

/// One step of saturating accumulation agrees with saturating the exact
/// value.
pub proof fn lemma_saturating_step(v: nat, base: nat, d: nat)
    ensures
        ({
            let prod = saturate(v) * saturate(base);
            let m: nat = if prod > u32::MAX {
                u32::MAX as nat
            } else {
                prod as nat
            };
            let sum = m + saturate(d);
            let r: nat = if sum > u32::MAX {
                u32::MAX as nat
            } else {
                sum as nat
            };
            r == saturate(v * base + d)
        }),
{
    let max = u32::MAX as nat;
    let sv = saturate(v) as nat;
    let sb = saturate(base) as nat;
    if v <= max && base <= max {
        assert(sv * sb == v * base);
    } else if v == 0 {
        assert(sv * sb == 0) by (nonlinear_arith)
            requires
                sv == 0,
        ;
        assert(v * base == 0) by (nonlinear_arith)
            requires
                v == 0,
        ;
    } else if base == 0 {
        assert(sv * sb == 0) by (nonlinear_arith)
            requires
                sb == 0,
        ;
        assert(v * base == 0) by (nonlinear_arith)
            requires
                base == 0,
        ;
    } else {
        // one factor is saturated and the other is at least 1
        assert(sv * sb >= max) by (nonlinear_arith)
            requires
                sv >= 1,
                sb >= 1,
                sv >= max || sb >= max,
        ;
        assert(v * base > max) by (nonlinear_arith)
            requires
                v >= 1,
                base >= 1,
                v > max || base > max,
        ;
    }
}

/// How many symbols of an alphabet of `base` symbols encode one 16-bit
/// value.
pub fn symbols_per_char(base: usize) -> (g: usize)
    ensures
        g == group_width(base as nat),
        1 <= g <= 16,
{
    if base >= 65536 {
        1
    } else if base >= 256 {
        2
    } else if base >= 41 {
        3
    } else if base >= 16 {
        4
    } else if base >= 10 {
        5
    } else if base >= 7 {
        6
    } else if base >= 5 {
        7
    } else if base == 4 {
        8
    } else if base == 3 {
        11
    } else {
        16
    }
}

} // verus!
