//! Exact operations on IEEE-754 bit patterns, for the places where the
//! document copies an `f32` setting into an `f64` field.

use vstd::prelude::*;

verus! {

/// The bits of `f32::max(v, 1.0)` for the `f32` `v` with bits `b`: `b`
/// itself when `v` is a number of at least 1.0 (up to +∞), else 1.0. A NaN
/// gives 1.0, since `max` returns the operand that is not NaN.
pub open spec fn spec_max_one_f32(b: u32) -> u32 {
    if 0x3f80_0000 <= b <= 0x7f80_0000 {
        b
    } else {
        0x3f80_0000
    }
}

/// `f32::max(v, 1.0)`, on bit patterns.
pub fn max_one_f32_bits(b: u32) -> (r: u32)
    ensures
        r == spec_max_one_f32(b),
{
    if 0x3f80_0000 <= b && b <= 0x7f80_0000 {
        b
    } else {
        0x3f80_0000
    }
}

/// A subnormal mantissa `m` shifted left until bit 23 is set (at most
/// `fuel` times), with the number of shifts.
pub open spec fn normalize(m: u32, fuel: nat) -> (nat, u32)
    decreases fuel,
{
    if fuel == 0 || m & 0x80_0000 != 0 {
        (0, m)
    } else {
        let (s, n) = normalize(m << 1u32, (fuel - 1) as nat);
        (s + 1, n)
    }
}

/// The bits of the `f64` equal to the `f32` with bits `b` (`v as f64`):
/// the sign is kept; infinities stay infinite; a NaN stays a NaN with its
/// payload, made quiet; a subnormal is normalised; a normal number gets
/// its exponent rebased from 127 to 1023 and its mantissa widened.
pub open spec fn spec_widen_f32(b: u32) -> u64 {
    let sign: u64 = ((b >> 31u32) as u64) << 63u64;
    let exp: u32 = (b >> 23u32) & 0xff;
    let man: u32 = b & 0x7f_ffff;
    if exp == 0xff {
        if man == 0 {
            sign | 0x7ff0_0000_0000_0000
        } else {
            sign | 0x7ff8_0000_0000_0000 | ((man as u64) << 29u64)
        }
    } else if exp == 0 {
        if man == 0 {
            sign
        } else {
            let (s, n) = normalize(man, 23);
            sign | (((897 - s) as u64) << 52u64) | (((n & 0x7f_ffff) as u64) << 29u64)
        }
    } else {
        sign | (((exp + 896) as u64) << 52u64) | ((man as u64) << 29u64)
    }
}

/// `v as f64` for the `f32` `v` with bits `b`, as bits.
pub fn widen_f32_bits(b: u32) -> (r: u64)
    ensures
        r == spec_widen_f32(b),
{
    let sign: u64 = ((b >> 31u32) as u64) << 63u64;
    let exp: u32 = (b >> 23u32) & 0xff;
    let man: u32 = b & 0x7f_ffff;
    assert(exp <= 0xff) by (bit_vector)
        requires
            exp == (b >> 23u32) & 0xff,
    ;
    if exp == 0xff {
        if man == 0 {
            sign | 0x7ff0_0000_0000_0000
        } else {
            sign | 0x7ff8_0000_0000_0000 | ((man as u64) << 29u64)
        }
    } else if exp == 0 {
        if man == 0 {
            sign
        } else {
            let mut m: u32 = man;
            let mut s: u32 = 0;
            while s < 23 && m & 0x80_0000 == 0
                invariant
                    s <= 23,
                    normalize(man, 23).0 == s + normalize(m, (23 - s) as nat).0,
                    normalize(man, 23).1 == normalize(m, (23 - s) as nat).1,
                decreases 23 - s,
            {
                m = m << 1u32;
                s = s + 1;
            }
            assert(normalize(m, (23 - s) as nat) == (0nat, m));
            sign | (((897 - s) as u64) << 52u64) | (((m & 0x7f_ffff) as u64) << 29u64)
        }
    } else {
        sign | (((exp + 896) as u64) << 52u64) | ((man as u64) << 29u64)
    }
}

/// The bits of `t.clamp(0.0, 1.0)` for the `f64` with bits `t`: a NaN and
/// any value in [-0.0, 1.0] stay; a negative value becomes 0.0; a value
/// above 1.0 becomes 1.0.
pub open spec fn spec_clamp_unit(t: u64) -> u64 {
    if (t & 0x7fff_ffff_ffff_ffff) > 0x7ff0_0000_0000_0000 {
        t
    } else if t >= 0x8000_0000_0000_0001 {
        0
    } else if 0x3ff0_0000_0000_0000 < t && t < 0x8000_0000_0000_0000 {
        0x3ff0_0000_0000_0000
    } else {
        t
    }
}

/// `t.clamp(0.0, 1.0)` on `f64` bits.
pub fn clamp_unit_bits(t: u64) -> (r: u64)
    ensures
        r == spec_clamp_unit(t),
{
    if (t & 0x7fff_ffff_ffff_ffff) > 0x7ff0_0000_0000_0000 {
        t
    } else if t >= 0x8000_0000_0000_0001 {
        0
    } else if 0x3ff0_0000_0000_0000 < t && t < 0x8000_0000_0000_0000 {
        0x3ff0_0000_0000_0000
    } else {
        t
    }
}

} // verus!
