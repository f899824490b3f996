//! Single-precision numbers, read through their bit patterns.
//!
//! A pattern has a sign bit, eight exponent bits and twenty-three fraction
//! bits. The magnitude of a finite pattern is a whole multiple of 2^-149,
//! which lets every comparison this crate needs be stated over integers.

use vstd::prelude::*;
use vstd::arithmetic::power2::*;

verus! {

/// The pattern of the number one.
pub const ONE: u32 = 0x3F80_0000;

/// The pattern of the single-precision number nearest to one tenth
/// (13421773 * 2^-27, a little above one tenth).
pub const TENTH: u32 = 0x3DCC_CCCD;

/// The pattern of the single-precision number nearest to one millionth
/// (8796093 * 2^-43, a little below one millionth).
pub const MILLIONTH: u32 = 0x3586_37BD;

/// The pattern without its sign bit.
pub open spec fn magnitude(bits: u32) -> u32 {
    (bits % 0x8000_0000) as u32
}

/// Whether the sign bit is clear.
pub open spec fn sign_clear(bits: u32) -> bool {
    bits < 0x8000_0000
}

/// The biased exponent field.
pub open spec fn exponent(bits: u32) -> nat {
    ((bits / 0x80_0000) % 0x100) as nat
}

/// The fraction field.
pub open spec fn fraction(bits: u32) -> nat {
    (bits % 0x80_0000) as nat
}

/// Whether the pattern is a number that is neither infinite nor a NaN.
pub open spec fn finite(bits: u32) -> bool {
    exponent(bits) < 255
}

/// The magnitude of a finite pattern's value, counted in units of 2^-149.
pub open spec fn scaled(bits: u32) -> nat {
    if exponent(bits) == 0 {
        fraction(bits)
    } else {
        (0x80_0000 + fraction(bits)) * pow2((exponent(bits) - 1) as nat)
    }
}

/// Whether the pattern is a NaN, which stands for no number.
pub open spec fn nan(bits: u32) -> bool {
    exponent(bits) == 255 && fraction(bits) != 0
}

/// The value is zero, of either sign.
pub open spec fn zero(bits: u32) -> bool {
    finite(bits) && scaled(bits) == 0
}

/// The value is less than zero; minus infinity is.
pub open spec fn below_zero(bits: u32) -> bool {
    !sign_clear(bits) && !nan(bits) && !zero(bits)
}

/// The value is finite, and nearer to zero than the number of the pattern
/// `MILLIONTH` is.
pub open spec fn negligible(bits: u32) -> bool {
    finite(bits) && scaled(bits) < scaled(MILLIONTH)
}

/// The byte of a value: 0 for a NaN and under a set sign bit; else the whole
/// part of the value, and 255 where that is more, as for plus infinity.
pub open spec fn byte_of(bits: u32) -> int {
    if nan(bits) || !sign_clear(bits) {
        0
    } else if !finite(bits) || scaled(bits) / pow2(149) > 255 {
        255
    } else {
        (scaled(bits) / pow2(149)) as int
    }
}

/// The value lies between zero, which counts, and one, which does not; the
/// sign bit is clear, so minus zero does not count.
pub open spec fn in_unit_interval(bits: u32) -> bool {
    sign_clear(bits) && finite(bits) && scaled(bits) < pow2(149)
}

/// The value is finite and less than one tenth; the sign bit is clear.
pub open spec fn under_a_tenth(bits: u32) -> bool {
    sign_clear(bits) && finite(bits) && 10 * scaled(bits) < pow2(149)
}

/// The value is finite and its magnitude is at most one.
pub open spec fn at_most_one(bits: u32) -> bool {
    finite(bits) && scaled(bits) <= pow2(149)
}

/// Among patterns with a clear sign bit, a larger pattern is a larger value.
pub proof fn lemma_scaled_increases(a: u32, b: u32)
    requires
        a < b,
        sign_clear(b),
    ensures
        scaled(a) < scaled(b),
{
    let ea: nat = exponent(a);
    let eb: nat = exponent(b);
    let fa: nat = fraction(a);
    let fb: nat = fraction(b);
    assert(a == ea * 0x80_0000 + fa && b == eb * 0x80_0000 + fb);
    if ea == eb {
        if ea != 0 {
            let p: nat = pow2((ea - 1) as nat);
            lemma_pow2_pos((ea - 1) as nat);
            assert((0x80_0000 + fa) * p < (0x80_0000 + fb) * p) by (nonlinear_arith)
                requires
                    fa < fb,
                    p > 0,
            ;
        }
    } else {
        assert(ea < eb);
        let q: nat = pow2((eb - 1) as nat);
        lemma_pow2_pos((eb - 1) as nat);
        assert(0x80_0000 * q <= (0x80_0000 + fb) * q) by (nonlinear_arith)
            requires
                q > 0,
        ;
        if ea == 0 {
            assert(0x80_0000 * 1 <= 0x80_0000 * q) by (nonlinear_arith)
                requires
                    q >= 1,
            ;
        } else {
            let p: nat = pow2((ea - 1) as nat);
            lemma_pow2_pos((ea - 1) as nat);
            lemma_pow2_unfold(ea);
            if ea < eb - 1 {
                lemma_pow2_strictly_increases(ea, (eb - 1) as nat);
            }
            assert(pow2(ea) <= q);
            assert((0x80_0000 + fa) * p < 0x80_0000 * (2 * p)) by (nonlinear_arith)
                requires
                    fa < 0x80_0000,
                    p > 0,
            ;
            assert(0x80_0000 * pow2(ea) <= 0x80_0000 * q) by (nonlinear_arith)
                requires
                    pow2(ea) <= q,
            ;
        }
    }
}

/// The sign bit does not enter the scaled magnitude.
pub proof fn lemma_scaled_ignores_sign(bits: u32)
    ensures
        scaled(magnitude(bits)) == scaled(bits),
        finite(magnitude(bits)) == finite(bits),
        sign_clear(magnitude(bits)),
{
}

/// The number one is 2^149 units.
pub proof fn lemma_scaled_one()
    ensures
        scaled(ONE) == pow2(149),
        finite(ONE),
{
    assert(exponent(ONE) == 127 && fraction(ONE) == 0);
    lemma2_to64();
    lemma_pow2_adds(23, 126);
}

/// One tenth lies strictly between the pattern below `TENTH` and `TENTH`.
pub proof fn lemma_scaled_tenth()
    ensures
        10 * scaled((TENTH - 1) as u32) < pow2(149),
        10 * scaled(TENTH) >= pow2(149),
        finite(TENTH),
{
    let below: u32 = (TENTH - 1) as u32;
    assert(exponent(TENTH) == 123 && fraction(TENTH) == 0x4C_CCCD);
    assert(exponent(below) == 123 && fraction(below) == 0x4C_CCCC);
    lemma2_to64();
    lemma_pow2_adds(27, 122);
    lemma_pow2_pos(122);
    let p: nat = pow2(122);
    assert(10 * (13421772 * p) < 0x800_0000 * p) by (nonlinear_arith)
        requires
            p > 0,
    ;
    assert(10 * (13421773 * p) >= 0x800_0000 * p) by (nonlinear_arith)
        requires
            p > 0,
    ;
}

/// The patterns of the numbers from zero (included) to one (excluded) are
/// those below the pattern of one.
pub proof fn lemma_in_unit_interval(bits: u32)
    ensures
        in_unit_interval(bits) <==> bits < ONE,
{
    lemma_scaled_one();
    if bits < ONE {
        lemma_scaled_increases(bits, ONE);
    } else if bits > ONE && sign_clear(bits) {
        lemma_scaled_increases(ONE, bits);
    }
}

/// The patterns of the numbers from zero to one tenth (excluded) are those
/// below `TENTH`.
pub proof fn lemma_under_a_tenth(bits: u32)
    ensures
        under_a_tenth(bits) <==> bits < TENTH,
{
    lemma_scaled_tenth();
    let below: u32 = (TENTH - 1) as u32;
    if bits < below {
        lemma_scaled_increases(bits, below);
    } else if bits > TENTH && sign_clear(bits) {
        lemma_scaled_increases(TENTH, bits);
    }
}

/// The patterns of the numbers from minus one to one are those that are, but
/// for the sign bit, at most the pattern of one.
pub proof fn lemma_at_most_one(bits: u32)
    ensures
        at_most_one(bits) <==> magnitude(bits) <= ONE,
{
    let m: u32 = magnitude(bits);
    lemma_scaled_ignores_sign(bits);
    lemma_scaled_one();
    if m < ONE {
        lemma_scaled_increases(m, ONE);
    } else if m > ONE {
        lemma_scaled_increases(ONE, m);
    }
}

/// Tells whether a pattern with a clear sign bit is a number from zero
/// (included) to one (excluded).
pub fn is_unit(bits: u32) -> (r: bool)
    ensures
        r == in_unit_interval(bits),
{
    proof {
        lemma_in_unit_interval(bits);
    }
    bits < ONE
}

/// Tells whether a pattern with a clear sign bit is a finite number less
/// than one tenth.
pub fn is_under_a_tenth(bits: u32) -> (r: bool)
    ensures
        r == under_a_tenth(bits),
{
    proof {
        lemma_under_a_tenth(bits);
    }
    bits < TENTH
}

/// Tells whether a pattern is a finite number from minus one to one, both
/// included.
pub fn is_at_most_one(bits: u32) -> (r: bool)
    ensures
        r == at_most_one(bits),
{
    proof {
        lemma_at_most_one(bits);
    }
    bits % 0x8000_0000 <= ONE
}

/// Tells whether a pattern is zero, of either sign.
pub fn is_zero(bits: u32) -> (r: bool)
    ensures
        r == zero(bits),
{
    proof {
        lemma_scaled_ignores_sign(bits);
        let m: u32 = magnitude(bits);
        if m > 0 {
            lemma_scaled_increases(0, m);
        }
    }
    bits % 0x8000_0000 == 0
}

/// Tells whether a pattern is a number less than zero.
pub fn is_below_zero(bits: u32) -> (r: bool)
    ensures
        r == below_zero(bits),
{
    proof {
        lemma_scaled_ignores_sign(bits);
        let m: u32 = magnitude(bits);
        if m > 0 {
            lemma_scaled_increases(0, m);
        }
    }
    0x8000_0000 < bits && bits <= 0xFF80_0000
}

/// Tells whether a pattern is a finite number nearer to zero than the
/// number of the pattern `MILLIONTH`.
pub fn is_negligible(bits: u32) -> (r: bool)
    ensures
        r == negligible(bits),
{
    let m: u32 = bits % 0x8000_0000;
    proof {
        lemma_scaled_ignores_sign(bits);
        assert(exponent(MILLIONTH) == 107);
        if m < MILLIONTH {
            lemma_scaled_increases(m, MILLIONTH);
        } else if m > MILLIONTH {
            lemma_scaled_increases(MILLIONTH, m);
        }
    }
    m < MILLIONTH
}

/// The whole part of a value whose exponent field is from 127 to 150 is
/// its significand, the fraction with the leading one before it, divided by
/// two to the power that the field lacks to 150.
proof fn lemma_whole_part(bits: u32)
    requires
        127 <= exponent(bits) <= 150,
    ensures
        scaled(bits) / pow2(149) == (0x80_0000 + fraction(bits)) / pow2(
            (150 - exponent(bits)) as nat,
        ),
{
    let e: nat = exponent(bits);
    let m: nat = 0x80_0000 + fraction(bits);
    let unit: nat = pow2((e - 1) as nat);
    let divisor: nat = pow2((150 - e) as nat);
    lemma_pow2_adds((150 - e) as nat, (e - 1) as nat);
    lemma_pow2_pos((e - 1) as nat);
    lemma_pow2_pos((150 - e) as nat);
    assert(pow2(149) == unit * divisor) by (nonlinear_arith)
        requires
            pow2(149) == divisor * unit,
    ;
    assert(scaled(bits) == unit * m) by (nonlinear_arith)
        requires
            scaled(bits) == m * unit,
    ;
    vstd::arithmetic::div_mod::lemma_div_multiples_vanish_quotient(
        unit as int,
        m as int,
        divisor as int,
    );
}

/// A value whose exponent field is 135 or more is 256 at least.
proof fn lemma_large(bits: u32)
    requires
        sign_clear(bits),
        135 <= exponent(bits),
    ensures
        scaled(bits) / pow2(149) > 255,
{
    let least: u32 = 0x4380_0000;
    assert(exponent(least) == 135 && fraction(least) == 0);
    lemma2_to64();
    lemma_pow2_adds(8, 149);
    lemma_pow2_adds(23, 134);
    assert(scaled(least) == 256 * pow2(149));
    if bits > least {
        lemma_scaled_increases(least, bits);
    }
    lemma_pow2_pos(149);
    vstd::arithmetic::div_mod::lemma_div_is_ordered(
        256 * pow2(149) as int,
        scaled(bits) as int,
        pow2(149) as int,
    );
    vstd::arithmetic::div_mod::lemma_div_multiples_vanish(256, pow2(149) as int);
}

/// The byte of a number: 0 for a NaN and under a set sign bit; else the
/// whole part of the number, and 255 where that is more. A number that has
/// been rounded to a whole one is so kept between 0 and 255.
pub fn to_byte(bits: u32) -> (byte: u8)
    ensures
        byte == byte_of(bits),
{
    if bits >= 0x8000_0000 {
        return 0;
    }
    let e: u32 = bits / 0x80_0000;
    let f: u32 = bits % 0x80_0000;
    if e == 255 {
        return if f != 0 {
            0
        } else {
            255
        };
    }
    if e < 127 {
        proof {
            lemma_in_unit_interval(bits);
            lemma_pow2_pos(149);
            vstd::arithmetic::div_mod::lemma_basic_div(scaled(bits) as int, pow2(149) as int);
        }
        return 0;
    }
    if e >= 135 {
        proof {
            lemma_large(bits);
        }
        return 255;
    }
    let significand: u32 = 0x80_0000 + f;
    let whole: u32 = significand >> (150 - e);
    proof {
        lemma_whole_part(bits);
        vstd::bits::lemma_u32_shr_is_div(significand, (150 - e) as u32);
        lemma_pow2_strictly_increases(15, (150 - e) as nat);
        lemma2_to64();
        assert(whole <= 255) by (nonlinear_arith)
            requires
                whole == significand as int / pow2((150 - e) as nat) as int,
                significand < 0x100_0000,
                pow2((150 - e) as nat) >= 0x1_0000,
        ;
    }
    whole as u8
}

} // verus!
