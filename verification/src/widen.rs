//! Widening of narrow floating-point bit patterns to binary32 bit patterns.
//!
//! The compiled plans emit IEEE 754 binary16 logits, and quantized tables
//! store `P` as FP8 E4M3 (the `e4m3fn` variant: no infinities, one NaN
//! pattern per sign). Both are widened on bit patterns only, so the widening
//! is stated and proved here over the integer fields of the formats: a finite
//! value keeps its sign and its exact magnitude.
use vstd::prelude::*;
use vstd::arithmetic::power2::{
    lemma2_to64, lemma_pow2_adds, lemma_pow2_pos, lemma_pow2_strictly_increases, pow2,
};

verus! {

/// Magnitude of an IEEE 754 pattern with biased exponent `e` and fraction `m`
/// over `p` fraction bits, as an integer multiple of the format's smallest
/// subnormal: subnormals are `m`, normals `(2^p + m) · 2^(e - 1)`.
pub open spec fn ieee_scaled(e: nat, m: nat, p: nat) -> nat {
    if e == 0 {
        m
    } else {
        (pow2(p) + m) * pow2((e - 1) as nat)
    }
}

/// Sign bit of a binary16 pattern.
pub open spec fn half_sign(h: u16) -> nat {
    (h / 0x8000) as nat
}

/// Biased exponent field of a binary16 pattern.
pub open spec fn half_exp(h: u16) -> nat {
    ((h / 0x400) % 0x20) as nat
}

/// Fraction field of a binary16 pattern.
pub open spec fn half_frac(h: u16) -> nat {
    (h % 0x400) as nat
}

/// Sign bit of a binary32 pattern.
pub open spec fn single_sign(w: u32) -> nat {
    (w / 0x8000_0000) as nat
}

/// Biased exponent field of a binary32 pattern.
pub open spec fn single_exp(w: u32) -> nat {
    ((w / 0x80_0000) % 0x100) as nat
}

/// Fraction field of a binary32 pattern.
pub open spec fn single_frac(w: u32) -> nat {
    (w % 0x80_0000) as nat
}

/// Magnitude of a finite binary16 pattern in units of 2^-24.
pub open spec fn half_magnitude(h: u16) -> nat {
    ieee_scaled(half_exp(h), half_frac(h), 10)
}

/// Magnitude of a finite binary32 pattern in units of 2^-149.
pub open spec fn single_magnitude(w: u32) -> nat {
    ieee_scaled(single_exp(w), single_frac(w), 23)
}

/// `w` is the binary32 widening of `h`: same sign; a finite `h` becomes the
/// finite binary32 of equal value (2^-24 = 2^125 · 2^-149); an infinity or
/// NaN keeps its class and its fraction, shifted into the top fraction bits.
pub open spec fn widens_to(h: u16, w: u32) -> bool {
    &&& single_sign(w) == half_sign(h)
    &&& if half_exp(h) == 0x1F {
        &&& single_exp(w) == 0xFF
        &&& single_frac(w) == half_frac(h) * 0x2000
    } else {
        &&& single_exp(w) < 0xFF
        &&& single_magnitude(w) == half_magnitude(h) * pow2(125)
    }
}

/// Sign bit of an FP8 E4M3 pattern.
pub open spec fn e4m3_sign(b: u8) -> nat {
    (b / 0x80) as nat
}

/// Biased exponent field (bias 7) of an FP8 E4M3 pattern.
pub open spec fn e4m3_exp(b: u8) -> nat {
    ((b / 0x8) % 0x10) as nat
}

/// Fraction field of an FP8 E4M3 pattern.
pub open spec fn e4m3_frac(b: u8) -> nat {
    (b % 0x8) as nat
}

/// The two NaN patterns of E4M3 (`e4m3fn` has no infinities).
pub open spec fn e4m3_is_nan(b: u8) -> bool {
    e4m3_exp(b) == 0xF && e4m3_frac(b) == 0x7
}

/// Magnitude of a non-NaN E4M3 pattern in units of 2^-9.
pub open spec fn e4m3_magnitude(b: u8) -> nat {
    ieee_scaled(e4m3_exp(b), e4m3_frac(b), 3)
}

/// `w` is the binary32 decoding of the E4M3 pattern `b`: NaN becomes a NaN;
/// any other pattern becomes the finite binary32 of equal sign and value
/// (2^-9 = 2^140 · 2^-149).
pub open spec fn decodes_e4m3_to(b: u8, w: u32) -> bool {
    if e4m3_is_nan(b) {
        single_exp(w) == 0xFF && single_frac(w) != 0
    } else {
        &&& single_sign(w) == e4m3_sign(b)
        &&& single_exp(w) < 0xFF
        &&& single_magnitude(w) == e4m3_magnitude(b) * pow2(140)
    }
}

/// Magnitudes follow the order of (exponent, fraction) pairs: a larger
/// exponent, or an equal exponent with a larger fraction, is a larger value.
pub proof fn lemma_ieee_scaled_strictly_increases(e1: nat, m1: nat, e2: nat, m2: nat, p: nat)
    requires
        m1 < pow2(p),
        m2 < pow2(p),
        e1 < e2 || (e1 == e2 && m1 < m2),
    ensures
        ieee_scaled(e1, m1, p) < ieee_scaled(e2, m2, p),
{
    lemma2_to64();
    let big = pow2(p);
    if e1 == e2 {
        if e1 > 0 {
            let x = pow2((e1 - 1) as nat);
            lemma_pow2_pos((e1 - 1) as nat);
            assert((big + m1) * x < (big + m2) * x) by (nonlinear_arith)
                requires
                    m1 < m2,
                    x > 0,
            ;
        }
    } else {
        // The first value lies below `big · 2^e1`, the second at or above it.
        let lo = pow2(e1);
        lemma_pow2_pos(e1);
        if e1 > 0 {
            let x = pow2((e1 - 1) as nat);
            lemma_pow2_adds((e1 - 1) as nat, 1);
            assert((big + m1) * x < big * lo) by (nonlinear_arith)
                requires
                    m1 < big,
                    lo == x * 2,
                    x > 0,
            ;
        } else {
            assert(m1 < big * lo) by (nonlinear_arith)
                requires
                    m1 < big,
                    lo == 1,
            ;
        }
        let y = pow2((e2 - 1) as nat);
        if e1 < e2 - 1 {
            lemma_pow2_strictly_increases(e1, (e2 - 1) as nat);
        }
        assert(big * lo <= (big + m2) * y) by (nonlinear_arith)
            requires
                lo <= y,
                big > 0,
        ;
    }
}

/// Widening is strictly monotone on the non-negative finite binary16 patterns
/// `0x0000..0x7C00`: a larger half-precision value widens to a larger
/// binary32 pattern (and so, both being non-negative, to a larger value).
pub proof fn lemma_widening_is_monotone(a: u16, b: u16, wa: u32, wb: u32)
    requires
        a < b < 0x7C00,
        widens_to(a, wa),
        widens_to(b, wb),
    ensures
        wa < wb,
{
    lemma2_to64();
    assert(a / 0x8000 == 0 && b / 0x8000 == 0 && (a / 0x400) % 0x20 < 0x1F && (b / 0x400) % 0x20
        < 0x1F && ((a / 0x400) % 0x20 < (b / 0x400) % 0x20 || ((a / 0x400) % 0x20 == (b / 0x400)
        % 0x20 && a % 0x400 < b % 0x400))) by (bit_vector)
        requires
            a < b,
            b < 0x7C00,
    ;
    lemma_ieee_scaled_strictly_increases(half_exp(a), half_frac(a), half_exp(b), half_frac(b), 10);
    let t = pow2(125);
    lemma_pow2_pos(125);
    assert(half_magnitude(a) * t < half_magnitude(b) * t) by (nonlinear_arith)
        requires
            half_magnitude(a) < half_magnitude(b),
            t > 0,
    ;
    lemma_single_order(wa, wb);
}

/// Among non-negative binary32 patterns, a smaller magnitude is a smaller
/// pattern.
proof fn lemma_single_order(wa: u32, wb: u32)
    requires
        single_sign(wa) == 0,
        single_sign(wb) == 0,
        single_magnitude(wa) < single_magnitude(wb),
    ensures
        wa < wb,
{
    lemma2_to64();
    if wb <= wa {
        assert(wb == wa || (wb / 0x80_0000) % 0x100 < (wa / 0x80_0000) % 0x100 || ((wb / 0x80_0000)
            % 0x100 == (wa / 0x80_0000) % 0x100 && wb % 0x80_0000 < wa % 0x80_0000)) by (bit_vector)
            requires
                wb <= wa,
                wa / 0x8000_0000 == 0,
                wb / 0x8000_0000 == 0,
        ;
        if wb != wa {
            lemma_ieee_scaled_strictly_increases(
                single_exp(wb),
                single_frac(wb),
                single_exp(wa),
                single_frac(wa),
                23,
            );
        }
    }
}

/// E4M3 decoding is strictly monotone on the non-negative non-NaN patterns
/// `0x00..0x7F`: a larger pattern decodes to a larger binary32 pattern (and
/// so, both being non-negative, to a larger value).
pub proof fn lemma_e4m3_decoding_is_monotone(a: u8, b: u8, wa: u32, wb: u32)
    requires
        a < b < 0x7F,
        decodes_e4m3_to(a, wa),
        decodes_e4m3_to(b, wb),
    ensures
        wa < wb,
{
    lemma2_to64();
    assert(a / 0x80 == 0 && b / 0x80 == 0 && !((a / 0x8) % 0x10 == 0xF && a % 0x8 == 0x7) && !((b
        / 0x8) % 0x10 == 0xF && b % 0x8 == 0x7) && ((a / 0x8) % 0x10 < (b / 0x8) % 0x10 || ((a
        / 0x8) % 0x10 == (b / 0x8) % 0x10 && a % 0x8 < b % 0x8))) by (bit_vector)
        requires
            a < b,
            b < 0x7F,
    ;
    lemma_ieee_scaled_strictly_increases(e4m3_exp(a), e4m3_frac(a), e4m3_exp(b), e4m3_frac(b), 3);
    let t = pow2(140);
    lemma_pow2_pos(140);
    assert(e4m3_magnitude(a) * t < e4m3_magnitude(b) * t) by (nonlinear_arith)
        requires
            e4m3_magnitude(a) < e4m3_magnitude(b),
            t > 0,
    ;
    lemma_single_order(wa, wb);
}

/// Reading the three fields back from a binary32 pattern assembled from them.
proof fn lemma_single_fields(s: u32, e: u32, m: u32)
    requires
        s <= 1,
        e < 0x100,
        m < 0x80_0000,
    ensures
        single_sign((s << 31u32) | (e << 23u32) | m) == s,
        single_exp((s << 31u32) | (e << 23u32) | m) == e,
        single_frac((s << 31u32) | (e << 23u32) | m) == m,
{
    let w = (s << 31u32) | (e << 23u32) | m;
    assert(w / 0x8000_0000 == s && (w / 0x80_0000) % 0x100 == e && w % 0x80_0000 == m)
        by (bit_vector)
        requires
            w == (s << 31u32) | (e << 23u32) | m,
            s <= 1,
            e < 0x100,
            m < 0x80_0000,
    ;
}

/// `(2^23 + 2^s·f) · 2^k` is `(2^(23 - s) + f) · 2^(s + k)`.
proof fn lemma_fraction_rescale(f: nat, s: nat, k: nat)
    requires
        s <= 23,
    ensures
        (pow2(23) + f * pow2(s)) * pow2(k) == (pow2((23 - s) as nat) + f) * pow2(s + k),
{
    lemma_pow2_adds(s, k);
    lemma_pow2_adds((23 - s) as nat, s);
    let a = pow2((23 - s) as nat);
    let b = pow2(s);
    let c = pow2(k);
    assert((a * b + f * b) * c == (a + f) * (b * c)) by (nonlinear_arith);
}

/// Widens a binary16 bit pattern to the binary32 bit pattern of the same
/// value: zeros and infinities keep their sign, subnormals are normalized,
/// NaN payloads move into the top fraction bits.
pub fn f16_bits_to_f32_bits(bits: u16) -> (out: u32)
    ensures
        widens_to(bits, out),
{
    let sign: u32 = (bits >> 15u16) as u32;
    let exp: u32 = ((bits >> 10u16) & 0x1F) as u32;
    let frac: u32 = (bits & 0x03FF) as u32;
    proof {
        assert(sign == bits / 0x8000 && exp == (bits / 0x400) % 0x20 && frac == bits % 0x400)
            by (bit_vector)
            requires
                sign == (bits >> 15u16) as u32,
                exp == ((bits >> 10u16) & 0x1F) as u32,
                frac == (bits & 0x03FF) as u32,
        ;
        lemma2_to64();
    }
    if exp == 0 && frac == 0 {
        let out: u32 = (sign << 31u32) | (0u32 << 23u32) | 0u32;
        proof {
            lemma_single_fields(sign, 0, 0);
            assert(half_magnitude(bits) == 0);
            assert(0 * pow2(125) == 0);
        }
        out
    } else if exp == 0 {
        let mut shifts: u32 = 0;
        let mut f: u32 = frac;
        while f & 0x0400 == 0
            invariant
                0 < frac < 0x400,
                0 < f < 0x800,
                f == frac * pow2(shifts as nat),
                pow2(shifts as nat) <= f,
                shifts <= 10,
            decreases 0x800 - f,
        {
            assert(f & 0x0400 == 0 && f < 0x800 ==> f << 1u32 == 2 * f && f < 0x400)
                by (bit_vector);
            proof {
                lemma2_to64();
                lemma_pow2_adds(shifts as nat, 1);
                if shifts > 10 {
                    lemma_pow2_strictly_increases(10, shifts as nat);
                }
                assert(shifts < 10);
                assert(frac * pow2((shifts + 1) as nat) == 2 * f) by (nonlinear_arith)
                    requires
                        pow2((shifts + 1) as nat) == pow2(shifts as nat) * pow2(1),
                        pow2(1) == 2,
                        f == frac * pow2(shifts as nat),
                ;
            }
            f = f << 1u32;
            shifts = shifts + 1;
        }
        let top: u32 = f & 0x03FF;
        proof {
            assert(f & 0x0400 != 0 && f < 0x800 ==> 0x400 <= f && f & 0x3FF == f - 0x400)
                by (bit_vector);
            if shifts == 0 {
                assert(f == frac);
            }
            if shifts > 11 {
                lemma_pow2_strictly_increases(11, shifts as nat);
            }
            assert(1 <= shifts <= 10);
        }
        let e: u32 = 127 - 24 + 10 - shifts;
        let out: u32 = (sign << 31u32) | (e << 23u32) | (top << 13u32);
        proof {
            assert(top < 0x400 ==> top << 13u32 == top * 0x2000 && top * 0x2000 < 0x80_0000)
                by (bit_vector);
            lemma_single_fields(sign, e, top << 13u32);
            let k = (112 - shifts) as nat;
            lemma_fraction_rescale(top as nat, 13, k);
            lemma_pow2_adds(shifts as nat, (13 + k) as nat);
            assert(shifts + 13 + k == 125);
            assert((0x400 + top) * pow2(13 + k) == frac * pow2(shifts as nat) * pow2(13 + k));
            assert(frac * pow2(shifts as nat) * pow2(13 + k) == frac * (pow2(shifts as nat) * pow2(
                13 + k,
            ))) by (nonlinear_arith);
            assert(single_magnitude(out) == half_magnitude(bits) * pow2(125));
        }
        out
    } else if exp == 0x1F {
        let out: u32 = (sign << 31u32) | (0xFFu32 << 23u32) | (frac << 13u32);
        proof {
            assert(frac < 0x400 ==> frac << 13u32 == frac * 0x2000 && frac * 0x2000 < 0x80_0000)
                by (bit_vector);
            lemma_single_fields(sign, 0xFF, frac << 13u32);
        }
        out
    } else {
        let out: u32 = (sign << 31u32) | ((exp + 112) << 23u32) | (frac << 13u32);
        proof {
            assert(frac < 0x400 ==> frac << 13u32 == frac * 0x2000 && frac * 0x2000 < 0x80_0000)
                by (bit_vector);
            lemma_single_fields(sign, (exp + 112) as u32, frac << 13u32);
            let k = (exp + 111) as nat;
            lemma_fraction_rescale(frac as nat, 13, k);
            lemma_pow2_adds((exp - 1) as nat, 125);
            assert(13 + k == (exp - 1) + 125);
            assert((0x400 + frac) * (pow2((exp - 1) as nat) * pow2(125)) == (0x400 + frac) * pow2(
                (exp - 1) as nat,
            ) * pow2(125)) by (nonlinear_arith);
            assert(single_magnitude(out) == half_magnitude(bits) * pow2(125));
        }
        out
    }
}

/// Decodes an FP8 E4M3 (`e4m3fn`) bit pattern to the binary32 bit pattern of
/// the same value: zeros keep their sign, subnormals (`m · 2^-9`) are
/// normalized, and both NaN patterns give the quiet NaN `0x7FC0_0000`.
pub fn e4m3_bits_to_f32_bits(bits: u8) -> (out: u32)
    ensures
        decodes_e4m3_to(bits, out),
{
    let sign: u32 = (bits >> 7u8) as u32;
    let exp: u32 = ((bits >> 3u8) & 0xF) as u32;
    let man: u32 = (bits & 0x7) as u32;
    proof {
        assert(sign == bits / 0x80 && exp == (bits / 0x8) % 0x10 && man == bits % 0x8)
            by (bit_vector)
            requires
                sign == (bits >> 7u8) as u32,
                exp == ((bits >> 3u8) & 0xF) as u32,
                man == (bits & 0x7) as u32,
        ;
        lemma2_to64();
    }
    if exp == 0 && man == 0 {
        let out: u32 = (sign << 31u32) | (0u32 << 23u32) | 0u32;
        proof {
            lemma_single_fields(sign, 0, 0);
            assert(e4m3_magnitude(bits) == 0);
            assert(0 * pow2(140) == 0);
        }
        out
    } else if exp == 0 {
        let mut shifts: u32 = 0;
        let mut f: u32 = man;
        while f & 0x8 == 0
            invariant
                0 < man < 0x8,
                0 < f < 0x10,
                f == man * pow2(shifts as nat),
                pow2(shifts as nat) <= f,
                shifts <= 3,
            decreases 0x10 - f,
        {
            assert(f & 0x8 == 0 && f < 0x10 ==> f << 1u32 == 2 * f && f < 0x8) by (bit_vector);
            proof {
                lemma2_to64();
                lemma_pow2_adds(shifts as nat, 1);
                if shifts > 3 {
                    lemma_pow2_strictly_increases(3, shifts as nat);
                }
                assert(shifts < 3);
                assert(man * pow2((shifts + 1) as nat) == 2 * f) by (nonlinear_arith)
                    requires
                        pow2((shifts + 1) as nat) == pow2(shifts as nat) * pow2(1),
                        pow2(1) == 2,
                        f == man * pow2(shifts as nat),
                ;
            }
            f = f << 1u32;
            shifts = shifts + 1;
        }
        let top: u32 = f & 0x7;
        proof {
            assert(f & 0x8 != 0 && f < 0x10 ==> 0x8 <= f && f & 0x7 == f - 0x8) by (bit_vector);
            if shifts == 0 {
                assert(f == man);
            }
            assert(1 <= shifts <= 3);
        }
        let e: u32 = 127 - 9 + 3 - shifts;
        let out: u32 = (sign << 31u32) | (e << 23u32) | (top << 20u32);
        proof {
            assert(top < 0x8 ==> top << 20u32 == top * 0x10_0000 && top * 0x10_0000 < 0x80_0000)
                by (bit_vector);
            lemma_single_fields(sign, e, top << 20u32);
            let k = (120 - shifts) as nat;
            lemma_fraction_rescale(top as nat, 20, k);
            lemma_pow2_adds(shifts as nat, (20 + k) as nat);
            assert(shifts + 20 + k == 140);
            assert((0x8 + top) * pow2(20 + k) == man * pow2(shifts as nat) * pow2(20 + k));
            assert(man * pow2(shifts as nat) * pow2(20 + k) == man * (pow2(shifts as nat) * pow2(
                20 + k,
            ))) by (nonlinear_arith);
            assert(single_magnitude(out) == e4m3_magnitude(bits) * pow2(140));
        }
        out
    } else if exp == 0xF && man == 0x7 {
        proof {
            assert(single_exp(0x7FC0_0000) == 0xFF && single_frac(0x7FC0_0000) != 0);
        }
        0x7FC0_0000
    } else {
        let out: u32 = (sign << 31u32) | ((exp + 120) << 23u32) | (man << 20u32);
        proof {
            assert(man < 0x8 ==> man << 20u32 == man * 0x10_0000 && man * 0x10_0000 < 0x80_0000)
                by (bit_vector);
            lemma_single_fields(sign, (exp + 120) as u32, man << 20u32);
            let k = (exp + 119) as nat;
            lemma_fraction_rescale(man as nat, 20, k);
            lemma_pow2_adds((exp - 1) as nat, 140);
            assert(20 + k == (exp - 1) + 140);
            assert((0x8 + man) * (pow2((exp - 1) as nat) * pow2(140)) == (0x8 + man) * pow2(
                (exp - 1) as nat,
            ) * pow2(140)) by (nonlinear_arith);
            assert(single_magnitude(out) == e4m3_magnitude(bits) * pow2(140));
        }
        out
    }
}

} // verus!
