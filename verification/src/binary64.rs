//! Rounding of integers to binary64, the 64-bit floating-point format, on bit
//! patterns alone: to the nearest representable number, ties to the even
//! significand.

use vstd::arithmetic::div_mod::{lemma_fundamental_div_mod_converse, lemma_small_mod};
use vstd::arithmetic::power2::{
    lemma2_to64,
    lemma2_to64_rest,
    lemma_pow2_adds,
    lemma_pow2_pos,
    lemma_pow2_strictly_increases,
    lemma_pow2_unfold,
    pow2,
};
use vstd::prelude::*;

verus! {

/// The bit that holds the sign.
pub const SIGN_BIT: u64 = 0x8000_0000_0000_0000;

/// Two to the 52nd: the weight of the exponent field, and the leading bit
/// of a significand, which the format leaves out.
pub const HIDDEN_BIT: u64 = 0x10_0000_0000_0000;

/// What the exponent field holds for the exponent zero.
pub const EXPONENT_BIAS: u64 = 1023;

/// The number of binary digits of `m`.
pub open spec fn bit_length(m: nat) -> nat
    decreases m,
{
    if m == 0 {
        0
    } else {
        1 + bit_length(m / 2)
    }
}

/// `m` as a count of `unit`s, rounded to the nearest count, a tie to the even one.
pub open spec fn round_half_even(m: nat, unit: nat) -> nat {
    let quotient = m / unit;
    let rest = m % unit;
    if 2 * rest > unit || (2 * rest == unit && quotient % 2 == 1) {
        quotient + 1
    } else {
        quotient
    }
}

/// The distance between neighbouring binary64 numbers of the size of `m`,
/// where that is at least one.
pub open spec fn unit_of(m: nat) -> nat
    recommends
        bit_length(m) > 53,
{
    pow2((bit_length(m) - 53) as nat)
}

/// The 53 leading binary digits of `m > 0`, rounded where `m` has more. It is
/// two to the 53rd where rounding carries into a further digit.
pub open spec fn significand_of(m: nat) -> nat {
    if bit_length(m) <= 53 {
        m * pow2((53 - bit_length(m)) as nat)
    } else {
        round_half_even(m, unit_of(m))
    }
}

/// The bit pattern of the binary64 number nearest to `m > 0`: exponent field
/// and fraction. The significand is added with its leading bit onto an
/// exponent field one too small, so that a carry out of the significand
/// raises the exponent and leaves the fraction zero.
pub open spec fn magnitude_bits(m: nat) -> int {
    (bit_length(m) + EXPONENT_BIAS - 2) * HIDDEN_BIT + significand_of(m)
}

/// The bit pattern of the binary64 number nearest to `n`.
pub open spec fn nearest_binary64(n: int) -> int {
    if n == 0 {
        0
    } else if n < 0 {
        SIGN_BIT + magnitude_bits((-n) as nat)
    } else {
        magnitude_bits(n as nat)
    }
}

/// A number of `bit_length(m)` binary digits lies between the powers of two
/// with that many digits and with one more.
pub proof fn lemma_bit_length_bounds(m: nat)
    requires
        m > 0,
    ensures
        pow2((bit_length(m) - 1) as nat) <= m < pow2(bit_length(m)),
    decreases m,
{
    if m == 1 {
        assert(bit_length(1) == 1 + bit_length(0));
        lemma2_to64();
    } else {
        let half: nat = m / 2;
        lemma_bit_length_bounds(half);
        lemma_pow2_unfold(bit_length(half));
        lemma_pow2_unfold(bit_length(m));
    }
}

/// A number below two to the `e` has at most `e` binary digits.
pub proof fn lemma_bit_length_at_most(m: nat, e: nat)
    requires
        m < pow2(e),
    ensures
        bit_length(m) <= e,
{
    if m > 0 && bit_length(m) > e {
        lemma_bit_length_bounds(m);
        if bit_length(m) - 1 > e {
            lemma_pow2_strictly_increases(e, (bit_length(m) - 1) as nat);
        }
    }
}

/// The significand of a positive number has exactly 53 digits, or is two to
/// the 53rd.
pub proof fn lemma_significand_bounds(m: nat)
    requires
        m > 0,
    ensures
        pow2(52) <= significand_of(m) <= pow2(53),
        bit_length(m) <= 53 ==> significand_of(m) < pow2(53),
{
    let len = bit_length(m);
    lemma_bit_length_bounds(m);
    if len <= 53 {
        let scale = pow2((53 - len) as nat);
        lemma_pow2_adds((len - 1) as nat, (53 - len) as nat);
        lemma_pow2_adds(len, (53 - len) as nat);
        lemma_pow2_pos((53 - len) as nat);
        assert(pow2((len - 1) as nat) * scale <= m * scale) by (nonlinear_arith)
            requires
                pow2((len - 1) as nat) <= m,
                scale > 0,
        ;
        assert(m * scale < pow2(len) * scale) by (nonlinear_arith)
            requires
                m < pow2(len),
                scale > 0,
        ;
    } else {
        let unit = unit_of(m);
        lemma_pow2_adds(52, (len - 53) as nat);
        lemma_pow2_adds(53, (len - 53) as nat);
        lemma_quotient_bounds(m, unit, pow2(52), pow2(53));
    }
}

/// Between two multiples of `unit`, the quotient by `unit` lies between the factors.
proof fn lemma_quotient_bounds(m: nat, unit: nat, low: nat, high: nat)
    requires
        unit > 0,
        low * unit <= m < high * unit,
    ensures
        low <= m / unit < high,
        m == (m / unit) * unit + m % unit,
        m % unit < unit,
{
    let q = m / unit;
    let r = m % unit;
    assert(m == q * unit + r && 0 <= r < unit) by (nonlinear_arith)
        requires
            q == m / unit,
            r == m % unit,
            unit > 0,
    ;
    assert(low <= q) by (nonlinear_arith)
        requires
            low * unit <= q * unit + r,
            r < unit,
            unit > 0,
    ;
    assert(q < high) by (nonlinear_arith)
        requires
            q * unit + r < high * unit,
            0 <= r,
            unit > 0,
    ;
}

/// Two to the `e`.
fn power_of_two(e: u32) -> (p: u128)
    requires
        e <= 75,
    ensures
        p == pow2(e as nat),
        0 < p <= 0x800_0000_0000_0000_0000,
{
    let mut p: u128 = 1;
    let mut k: u32 = 0;
    proof {
        lemma2_to64();
    }
    while k < e
        invariant
            k <= e <= 75,
            p == pow2(k as nat),
        decreases e - k,
    {
        proof {
            lemma_pow2_unfold((k + 1) as nat);
            lemma_power_of_two_limit((k + 1) as nat);
        }
        p = p * 2;
        k = k + 1;
    }
    proof {
        lemma_power_of_two_limit(e as nat);
        lemma_pow2_pos(e as nat);
    }
    p
}

/// Two to the 75th bounds the powers of two up to it.
proof fn lemma_power_of_two_limit(e: nat)
    requires
        e <= 75,
    ensures
        pow2(e) <= 0x800_0000_0000_0000_0000,
{
    lemma2_to64();
    lemma_pow2_adds(64, 11);
    assert(pow2(75) == 0x800_0000_0000_0000_0000) by (nonlinear_arith)
        requires
            pow2(75) == pow2(64) * pow2(11),
            pow2(64) == 0x1_0000_0000_0000_0000,
            pow2(11) == 0x800,
    ;
    if e < 75 {
        lemma_pow2_strictly_increases(e, 75);
    }
}

/// The number of binary digits of `m`.
fn count_digits(m: u128) -> (len: u32)
    ensures
        len == bit_length(m as nat),
        len <= 128,
{
    let mut len: u32 = 0;
    let mut rest: u128 = m;
    proof {
        lemma2_to64();
        lemma_pow2_adds(64, 64);
        lemma_bit_length_at_most(m as nat, 128);
    }
    while rest > 0
        invariant
            bit_length(m as nat) == len + bit_length(rest as nat),
            bit_length(m as nat) <= 128,
        decreases rest,
    {
        rest = rest / 2;
        len = len + 1;
    }
    len
}

/// The bit pattern, without the sign, of the binary64 number nearest to `m`.
fn round_magnitude(m: u128) -> (bits: u64)
    requires
        0 < m <= 0x8000_0000_0000_0000_0000_0000_0000_0000,
    ensures
        bits == magnitude_bits(m as nat),
        bits < SIGN_BIT,
{
    let len: u32 = count_digits(m);
    proof {
        lemma_significand_bounds(m as nat);
        lemma2_to64_rest();
    }
    let significand: u128 = if len <= 53 {
        let scale: u128 = power_of_two(53 - len);
        m * scale
    } else {
        let unit: u128 = power_of_two(len - 53);
        let quotient: u128 = m / unit;
        let rest: u128 = m % unit;
        if 2 * rest > unit || (2 * rest == unit && quotient % 2 == 1) {
            quotient + 1
        } else {
            quotient
        }
    };
    let exponent_field: u64 = (len as u64) + (EXPONENT_BIAS - 2);
    exponent_field * HIDDEN_BIT + (significand as u64)
}

/// The bit pattern of the binary64 number nearest to `n`: `n` itself where
/// it is representable, else the nearer of its two neighbours, and of two
/// equally near the one with the even significand.
pub fn nearest_binary64_bits(n: i128) -> (bits: u64)
    ensures
        bits == nearest_binary64(n as int),
{
    if n == 0 {
        0
    } else if n < 0 {
        let magnitude: u128 = ((-(n + 1)) as u128) + 1;
        SIGN_BIT + round_magnitude(magnitude)
    } else {
        round_magnitude(n as u128)
    }
}

/// The exponent field of a bit pattern.
pub open spec fn exponent_field(bits: int) -> int {
    (bits / (HIDDEN_BIT as int)) % 2048
}

/// The fraction field of a bit pattern: the significand without its leading bit.
pub open spec fn fraction_field(bits: int) -> int {
    bits % (HIDDEN_BIT as int)
}

/// Two to the 52nd times the magnitude of the number that a bit pattern
/// stands for, where that is a normal number of magnitude one or more.
pub open spec fn scaled_magnitude(bits: int) -> int
    recommends
        EXPONENT_BIAS <= exponent_field(bits) < 2047,
{
    (HIDDEN_BIT + fraction_field(bits)) * pow2((exponent_field(bits) - EXPONENT_BIAS) as nat)
}

/// The integer that `m > 0` is rounded to: `m` itself where 53 binary digits
/// hold it, else a whole number of units.
pub open spec fn rounded(m: nat) -> nat {
    if bit_length(m) <= 53 {
        m
    } else {
        round_half_even(m, unit_of(m)) * unit_of(m)
    }
}

/// The pattern computed for `m` is that of a normal number, and the number
/// that it stands for is `rounded(m)`.
pub proof fn lemma_pattern_stands_for_rounded(m: nat)
    requires
        m > 0,
        bit_length(m) <= 1023,
    ensures
        0 < magnitude_bits(m) < SIGN_BIT,
        EXPONENT_BIAS <= exponent_field(magnitude_bits(m)) < 2047,
        scaled_magnitude(magnitude_bits(m)) == rounded(m) * HIDDEN_BIT,
{
    let len = bit_length(m);
    let sig = significand_of(m);
    let bits = magnitude_bits(m);
    let hidden: int = HIDDEN_BIT as int;
    lemma2_to64_rest();
    lemma_significand_bounds(m);
    if sig < pow2(53) {
        let field: int = (len + 1022) as int;
        assert(bits == field * hidden + (sig - hidden)) by (nonlinear_arith)
            requires
                bits == (len + 1021) * hidden + sig,
                field == len + 1022,
        ;
        lemma_fundamental_div_mod_converse(bits, hidden, field, sig - hidden);
        lemma_small_mod(field as nat, 2048);
        assert(exponent_field(bits) == field);
        assert(fraction_field(bits) == sig - hidden);
        assert(bits < SIGN_BIT) by (nonlinear_arith)
            requires
                bits == field * hidden + (sig - hidden),
                field <= 2045,
                sig - hidden < hidden,
                hidden == 0x10_0000_0000_0000,
        ;
        assert(bits > 0) by (nonlinear_arith)
            requires
                bits == field * hidden + (sig - hidden),
                field >= 1023,
                sig - hidden >= 0,
                hidden == 0x10_0000_0000_0000,
        ;
        // sig * 2^(len - 1) is rounded(m) * 2^52
        if len <= 53 {
            lemma_pow2_adds((53 - len) as nat, (len - 1) as nat);
            assert(sig * pow2((len - 1) as nat) == m * hidden) by (nonlinear_arith)
                requires
                    sig == m * pow2((53 - len) as nat),
                    pow2((53 - len) as nat) * pow2((len - 1) as nat) == hidden,
            ;
        } else {
            lemma_pow2_adds((len - 53) as nat, 52);
            assert(sig * pow2((len - 1) as nat) == sig * unit_of(m) * hidden) by (nonlinear_arith)
                requires
                    pow2((len - 1) as nat) == unit_of(m) * hidden,
            ;
        }
    } else {
        let field: int = (len + 1023) as int;
        assert(bits == field * hidden + 0) by (nonlinear_arith)
            requires
                bits == (len + 1021) * hidden + sig,
                sig == 2 * hidden,
                field == len + 1023,
        ;
        lemma_fundamental_div_mod_converse(bits, hidden, field, 0);
        lemma_small_mod(field as nat, 2048);
        assert(exponent_field(bits) == field);
        assert(fraction_field(bits) == 0);
        assert(0 < bits < SIGN_BIT) by (nonlinear_arith)
            requires
                bits == field * hidden,
                1023 <= field <= 2046,
                hidden == 0x10_0000_0000_0000,
        ;
        lemma_pow2_unfold(len);
        lemma_pow2_adds((len - 53) as nat, 52);
        assert(hidden * pow2(len) == sig * unit_of(m) * hidden) by (nonlinear_arith)
            requires
                sig == 2 * hidden,
                pow2(len) == 2 * pow2((len - 1) as nat),
                pow2((len - 1) as nat) == unit_of(m) * hidden,
        ;
    }
}

/// A small integer is kept exactly: rounding changes no integer of up to 53
/// binary digits, so none below two to the 53rd.
pub proof fn lemma_small_integers_are_exact(m: nat)
    requires
        0 < m < pow2(53),
    ensures
        rounded(m) == m,
        scaled_magnitude(magnitude_bits(m)) == m * HIDDEN_BIT,
{
    lemma_bit_length_at_most(m, 53);
    lemma_pattern_stands_for_rounded(m);
}

/// No number with a significand of 53 binary digits is nearer to `m` than
/// `rounded(m)` is; and where another one is as near, `m` lies halfway
/// between the two and `rounded(m)` is the one whose count of units is even.
pub proof fn lemma_rounded_is_nearest(m: nat, significand: nat, exponent: nat)
    requires
        m > 0,
        significand < pow2(53),
    ensures
        ({
            let other = significand * pow2(exponent);
            &&& vstd::math::abs(rounded(m) - m) <= vstd::math::abs(other - m)
            &&& other != rounded(m) && vstd::math::abs(rounded(m) - m) == vstd::math::abs(other - m)
                ==> bit_length(m) > 53 && 2 * (m % unit_of(m)) == unit_of(m) && round_half_even(
                m,
                unit_of(m),
            ) % 2 == 0
        }),
{
    let len = bit_length(m);
    let other = significand * pow2(exponent);
    if len > 53 {
        let unit = unit_of(m);
        let shift = (len - 53) as nat;
        lemma_bit_length_bounds(m);
        lemma_pow2_adds(52, shift);
        lemma_pow2_adds(53, shift);
        lemma_quotient_bounds(m, unit, pow2(52), pow2(53));
        let q = m / unit;
        let r = m % unit;
        let count = round_half_even(m, unit);
        if exponent >= shift {
            // `other` is a whole number of units
            let factor = pow2((exponent - shift) as nat);
            lemma_pow2_adds((exponent - shift) as nat, shift);
            let j = significand * factor;
            assert(other == j * unit) by (nonlinear_arith)
                requires
                    other == significand * pow2(exponent),
                    pow2(exponent) == factor * unit,
                    j == significand * factor,
            ;
            lemma_units_apart(m, unit, q, r, count, j);
        } else {
            // `other` lies below every number of the size of `m`
            lemma_pow2_pos(exponent);
            if exponent + 1 < shift {
                lemma_pow2_strictly_increases(exponent + 1, shift);
            }
            lemma_pow2_unfold(exponent + 1);
            lemma_pow2_unfold(53);
            assert(other < q * unit) by (nonlinear_arith)
                requires
                    other == significand * pow2(exponent),
                    significand < pow2(53),
                    pow2(53) == 2 * pow2(52),
                    2 * pow2(exponent) <= unit,
                    pow2(exponent) > 0,
                    pow2(52) <= q,
                    unit > 0,
            ;
            assert(count * unit == q * unit || count * unit == q * unit + unit) by (nonlinear_arith)
                requires
                    count == q || count == q + 1,
            ;
        }
    }
}

/// Of the whole numbers of units, the rounded count is nearest to `m`; another
/// count is as near only on a tie, and then the rounded count is even.
proof fn lemma_units_apart(m: nat, unit: nat, q: nat, r: nat, count: nat, j: nat)
    requires
        unit > 0,
        m == q * unit + r,
        r < unit,
        q == m / unit,
        r == m % unit,
        count == round_half_even(m, unit),
    ensures
        vstd::math::abs(count * unit - m) <= vstd::math::abs(j * unit - m),
        j != count && vstd::math::abs(count * unit - m) == vstd::math::abs(j * unit - m) ==> 2
            * r == unit && count % 2 == 0,
        j * unit == count * unit ==> j == count,
{
    let up = 2 * r > unit || (2 * r == unit && q % 2 == 1);
    assert(count * unit - m == (if up {
        unit - r
    } else {
        -r
    })) by (nonlinear_arith)
        requires
            m == q * unit + r,
            count == (if up {
                q + 1
            } else {
                q
            }),
    ;
    if j <= q {
        assert(m - j * unit >= r && (j < q ==> m - j * unit >= unit + r)) by (nonlinear_arith)
            requires
                m == q * unit + r,
                j <= q,
                unit > 0,
        ;
    } else {
        assert(j * unit - m >= unit - r && (j > q + 1 ==> j * unit - m >= 2 * unit - r))
            by (nonlinear_arith)
            requires
                m == q * unit + r,
                j >= q + 1,
                unit > 0,
        ;
    }
    assert(j * unit == count * unit ==> j == count) by (nonlinear_arith)
        requires
            unit > 0,
    ;
    if j == q {
        assert(j * unit - m == -r) by (nonlinear_arith)
            requires
                m == q * unit + r,
                j == q,
        ;
    }
    if j == q + 1 {
        assert(j * unit - m == unit - r) by (nonlinear_arith)
            requires
                m == q * unit + r,
                j == q + 1,
        ;
    }
}

/// The pattern of a negative integer is that of its magnitude with the sign
/// bit set.
pub proof fn lemma_negation_sets_sign_bit(n: int)
    requires
        n > 0,
    ensures
        nearest_binary64(-n) == nearest_binary64(n) + SIGN_BIT,
{
}

} // verus!
