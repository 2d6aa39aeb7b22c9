//! IEEE-754 conversions computed on bit patterns: a 64-bit double narrowed to a
//! 32-bit single (round to nearest, ties to even), and a 32-bit integer widened to a
//! double (always exact).
use vstd::prelude::*;

verus! {

/// Rounds `mant / 2^shift` to the nearest integer, ties to even.
pub open spec fn round_shift(mant: u64, shift: u64) -> u64 {
    if shift >= 64 {
        0
    } else {
        let q = mant >> shift;
        let r = mant & (((1u64 << shift) - 1) as u64);
        let half = if shift == 0 { 0u64 } else { 1u64 << ((shift - 1) as u64) };
        if shift > 0 && (r > half || (r == half && q & 1 == 1)) {
            (q + 1) as u64
        } else {
            q
        }
    }
}

/// The single-precision bits of the double with bits `b`, rounded to nearest with ties
/// to even; infinities stay infinite, magnitudes beyond the single range become
/// infinite, and a NaN becomes the quiet NaN that keeps the sign and the top payload bits.
pub open spec fn narrow_double_bits(b: u64) -> u32 {
    let sign: u32 = ((b >> 63) as u32) << 31;
    let e = (b >> 52) & 0x7ff;
    let m = b & 0xf_ffff_ffff_ffff;
    if e == 0x7ff {
        if m == 0 {
            sign | 0x7f80_0000
        } else {
            sign | 0x7fc0_0000 | ((m >> 29) as u32)
        }
    } else if e == 0 {
        sign
    } else {
        let mant = m | 0x10_0000_0000_0000;
        if e >= 897 {
            // normal range of the single format (before rounding)
            let q = round_shift(mant, 29);
            let mag = (((e - 896) as u64) << 23) + q - 0x80_0000;
            if mag >= 0x7f80_0000 {
                sign | 0x7f80_0000
            } else {
                sign | (mag as u32)
            }
        } else {
            // subnormal range of the single format
            sign | (round_shift(mant, (926 - e) as u64) as u32)
        }
    }
}

/// Rounds a shifted mantissa (see [`round_shift`]).
fn round_shift_exec(mant: u64, shift: u64) -> (r: u64)
    requires
        mant < 0x20_0000_0000_0000,
    ensures
        r == round_shift(mant, shift),
        shift >= 1 && shift < 64 ==> r <= (mant >> shift) + 1,
{
    if shift >= 64 {
        0
    } else {
        let q = mant >> shift;
        assert((1u64 << shift) >= 1) by (bit_vector)
            requires
                shift < 64,
        ;
        let r = mant & ((1u64 << shift) - 1);
        let half = if shift == 0 {
            0u64
        } else {
            1u64 << (shift - 1)
        };
        assert(shift >= 1 ==> mant >> shift < 0x20_0000_0000_0000) by (bit_vector)
            requires
                mant < 0x20_0000_0000_0000,
        ;
        if shift > 0 && (r > half || (r == half && q & 1 == 1)) {
            q + 1
        } else {
            q
        }
    }
}

/// Narrows double-precision bits to single-precision bits (see [`narrow_double_bits`]).
pub fn narrow_double(b: u64) -> (r: u32)
    ensures
        r == narrow_double_bits(b),
{
    let sign: u32 = ((b >> 63) as u32) << 31;
    let e = (b >> 52) & 0x7ff;
    let m = b & 0xf_ffff_ffff_ffff;
    assert(e <= 0x7ff) by (bit_vector)
        requires
            e == (b >> 52) & 0x7ff,
    ;
    assert(m < 0x10_0000_0000_0000) by (bit_vector)
        requires
            m == b & 0xf_ffff_ffff_ffff,
    ;
    if e == 0x7ff {
        if m == 0 {
            sign | 0x7f80_0000
        } else {
            sign | 0x7fc0_0000 | ((m >> 29) as u32)
        }
    } else if e == 0 {
        sign
    } else {
        let mant = m | 0x10_0000_0000_0000;
        assert(mant < 0x20_0000_0000_0000) by (bit_vector)
            requires
                mant == m | 0x10_0000_0000_0000,
                m < 0x10_0000_0000_0000,
        ;
        if e >= 897 {
            let q = round_shift_exec(mant, 29);
            assert(mant >> 29u64 < 0x100_0000) by (bit_vector)
                requires
                    mant < 0x20_0000_0000_0000,
            ;
            assert(q >= 0x80_0000) by (bit_vector)
                requires
                    mant == m | 0x10_0000_0000_0000,
                    q >= mant >> 29u64,
            ;
            assert(((e - 896) as u64) << 23u64 <= 0x3_0000_0000) by (bit_vector)
                requires
                    897 <= e < 0x7ff,
            ;
            let mag = ((e - 896) << 23) + q - 0x80_0000;
            if mag >= 0x7f80_0000 {
                sign | 0x7f80_0000
            } else {
                sign | (mag as u32)
            }
        } else {
            sign | (round_shift_exec(mant, 926 - e) as u32)
        }
    }
}

/// Index of the highest set bit of a positive number.
pub open spec fn high_bit(a: nat) -> nat
    decreases a,
{
    if a <= 1 {
        0
    } else {
        1 + high_bit(a / 2)
    }
}

/// The double-precision bits of the integer `v` (every 32-bit integer is exact):
/// zero is all zero bits; otherwise the sign bit, the exponent `1023 + k` for
/// `2^k <= |v| < 2^(k+1)`, and the fraction `(|v| - 2^k) * 2^(52 - k)`.
pub open spec fn int_to_double_bits(v: i32) -> u64 {
    if v == 0 {
        0
    } else {
        let a: nat = if v < 0 { (-v) as nat } else { v as nat };
        let k = high_bit(a);
        let sign: int = if v < 0 { 0x8000_0000_0000_0000 } else { 0 };
        (sign + (1023 + k) * 0x10_0000_0000_0000 + (a - vstd::arithmetic::power2::pow2(k)) * vstd::arithmetic::power2::pow2((52 - k) as nat)) as u64
    }
}

proof fn lemma_high_bit(a: nat)
    requires
        a >= 1,
    ensures
        vstd::arithmetic::power2::pow2(high_bit(a)) <= a < vstd::arithmetic::power2::pow2(high_bit(a) + 1),
    decreases a,
{
    vstd::arithmetic::power2::lemma_pow2_unfold(high_bit(a) + 1);
    if a > 1 {
        lemma_high_bit(a / 2);
        vstd::arithmetic::power2::lemma_pow2_unfold(high_bit(a / 2) + 1);
    } else {
        vstd::arithmetic::power2::lemma2_to64();
    }
}

/// Widens a 32-bit integer to double-precision bits (see [`int_to_double_bits`]).
pub fn int_to_double(v: i32) -> (r: u64)
    ensures
        r == int_to_double_bits(v),
{
    if v == 0 {
        return 0;
    }
    let a: u64 = if v < 0 {
        (0i64 - (v as i64)) as u64
    } else {
        v as u64
    };
    proof {
        lemma_high_bit(a as nat);
        vstd::arithmetic::power2::lemma2_to64();
        if high_bit(a as nat) >= 32 {
            vstd::arithmetic::power2::lemma_pow2_strictly_increases(31, high_bit(a as nat));
        }
    }
    let ghost hb = high_bit(a as nat);
    assert(hb <= 31);
    // find k with 2^k <= a < 2^(k+1)
    let mut k: u64 = 0;
    let mut rest: u64 = a;
    while rest > 1
        invariant
            1 <= rest,
            hb == k + high_bit(rest as nat),
            hb <= 31,
        decreases rest,
    {
        rest = rest / 2;
        k = k + 1;
    }
    assert(k == hb);
    let pk: u64 = 1u64 << k;
    proof {
        if k < 31 {
            vstd::arithmetic::power2::lemma_pow2_strictly_increases(k as nat, 31);
        }
        vstd::bits::lemma_u64_shl_is_mul(1, k);
    }
    assert(pk <= a);
    let diff: u64 = a - pk;
    proof {
        vstd::arithmetic::power2::lemma_pow2_unfold((k + 1) as nat);
        assert(diff < pk);
        vstd::arithmetic::power2::lemma_pow2_adds(k as nat, (52 - k) as nat);
        vstd::arithmetic::power2::lemma_pow2_pos((52 - k) as nat);
        vstd::arithmetic::mul::lemma_mul_strict_inequality(
            diff as int,
            pk as int,
            vstd::arithmetic::power2::pow2((52 - k) as nat) as int,
        );
        vstd::arithmetic::power2::lemma_pow2_strictly_increases(52, 63);
        assert(k + (52 - k) as nat == 52);
        assert(pk * vstd::arithmetic::power2::pow2((52 - k) as nat) == vstd::arithmetic::power2::pow2(52));
        assert((diff as int) * (vstd::arithmetic::power2::pow2((52 - k) as nat) as int) < (pk as int) * (vstd::arithmetic::power2::pow2((52 - k) as nat) as int));
        vstd::arithmetic::power2::lemma2_to64_rest();
        assert(vstd::arithmetic::power2::pow2(52) == 0x10_0000_0000_0000);
        assert(diff * vstd::arithmetic::power2::pow2((52 - k) as nat) < 0x10_0000_0000_0000);
        vstd::bits::lemma_u64_shl_is_mul(diff, (52 - k) as u64);
    }
    let frac: u64 = diff << (52 - k);
    let sign: u64 = if v < 0 {
        0x8000_0000_0000_0000
    } else {
        0
    };
    sign + (1023 + k) * 0x10_0000_0000_0000 + frac
}

} // verus!
