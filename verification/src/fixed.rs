//! Saturating fixed-point arithmetic.
//!
//! A value is an `i64` counting units of `1/SCALE`. Every operation first
//! clamps its operands into `[-LIMIT, LIMIT]` and clamps its result the same
//! way, so no operation overflows and each one is specified exactly.

use vstd::prelude::*;

verus! {

/// One whole unit: the fixed-point representation of 1.
pub const SCALE: i64 = 65536;

/// Saturation bound on every fixed-point value (2^31 raw units).
pub const LIMIT: i64 = 0x8000_0000;

pub open spec fn spec_abs(x: int) -> int {
    if x < 0 { -x } else { x }
}

pub open spec fn spec_clamp(x: int) -> int {
    if x > LIMIT as int {
        LIMIT as int
    } else if x < -(LIMIT as int) {
        -(LIMIT as int)
    } else {
        x
    }
}

/// Saturating addition on clamped operands.
pub open spec fn spec_add(a: int, b: int) -> int {
    spec_clamp(spec_clamp(a) + spec_clamp(b))
}

/// Saturating fixed-point product: clamp the operands, multiply the
/// magnitudes, divide by SCALE (truncating toward zero), restore the sign.
pub open spec fn spec_mul(a: int, b: int) -> int {
    let aa = spec_clamp(a);
    let bb = spec_clamp(b);
    let p = spec_abs(aa) * spec_abs(bb);
    let q = p / (SCALE as int);
    if (aa < 0) != (bb < 0) {
        spec_clamp(-q)
    } else {
        spec_clamp(q)
    }
}

/// Piecewise-linear sigmoid, steepened as is usual for evolved networks:
/// slope 1 on [-0.375, 0.375], slope 1/64 on the tails, saturating at 0
/// below -8.375 and at 1 above 8.375. The tail slope keeps the function
/// strictly increasing over a wide range, so selection pressure survives
/// far from the origin.
pub open spec fn spec_sig(x: int) -> int {
    let c = spec_clamp(x);
    if c <= -548864 {
        0
    } else if c < -24576 {
        8192 - ((-c - 24576) / 64)
    } else if c <= 24576 {
        c + (SCALE as int) / 2
    } else if c < 548864 {
        57344 + ((c - 24576) / 64)
    } else {
        SCALE as int
    }
}

/// Division of a clamped value by a positive count, truncating toward zero.
pub open spec fn spec_div_count(f: int, n: int) -> int
    recommends n > 0,
{
    let ff = spec_clamp(f);
    if ff >= 0 {
        ff / n
    } else {
        -((-ff) / n)
    }
}

/// Absolute difference of two clamped values.
pub open spec fn spec_abs_diff(a: int, b: int) -> int {
    spec_abs(spec_clamp(a) - spec_clamp(b))
}

/// A count converted to fixed point, saturating.
pub open spec fn spec_of_count(n: int) -> int {
    spec_clamp(n * (SCALE as int))
}

pub fn fx_clamp(x: i64) -> (r: i64)
    ensures
        r as int == spec_clamp(x as int),
{
    if x > LIMIT {
        LIMIT
    } else if x < -LIMIT {
        -LIMIT
    } else {
        x
    }
}

pub fn fx_add(a: i64, b: i64) -> (r: i64)
    ensures
        r as int == spec_add(a as int, b as int),
{
    let ca = fx_clamp(a);
    let cb = fx_clamp(b);
    fx_clamp(ca + cb)
}

pub fn fx_mul(a: i64, b: i64) -> (r: i64)
    ensures
        r as int == spec_mul(a as int, b as int),
{
    let ca = fx_clamp(a);
    let cb = fx_clamp(b);
    let neg = (ca < 0) != (cb < 0);
    let ma = if ca < 0 { -ca } else { ca };
    let mb = if cb < 0 { -cb } else { cb };
    assert(ma * mb <= 0x8000_0000i64 * 0x8000_0000i64) by (nonlinear_arith)
        requires
            0 <= ma <= 0x8000_0000i64,
            0 <= mb <= 0x8000_0000i64,
    ;
    let p = ma * mb;
    let q = ((p as u64) / (SCALE as u64)) as i64;
    if neg {
        fx_clamp(-q)
    } else {
        fx_clamp(q)
    }
}

pub fn fx_sig(x: i64) -> (r: i64)
    ensures
        r as int == spec_sig(x as int),
{
    let c = fx_clamp(x);
    if c <= -548864 {
        0
    } else if c < -24576 {
        8192 - ((((-c - 24576) as u64) / 64u64) as i64)
    } else if c <= 24576 {
        c + SCALE / 2
    } else if c < 548864 {
        57344 + ((((c - 24576) as u64) / 64u64) as i64)
    } else {
        SCALE
    }
}

pub fn fx_div_count(f: i64, n: usize) -> (r: i64)
    requires
        n > 0,
    ensures
        r as int == spec_div_count(f as int, n as int),
{
    let ff = fx_clamp(f);
    if ff >= 0 {
        (((ff as u64) / (n as u64)) as i64)
    } else {
        let m = (((-ff) as u64) / (n as u64)) as i64;
        -m
    }
}

pub fn fx_abs_diff(a: i64, b: i64) -> (r: i64)
    ensures
        r as int == spec_abs_diff(a as int, b as int),
{
    let ca = fx_clamp(a);
    let cb = fx_clamp(b);
    let d = ca - cb;
    if d < 0 {
        -d
    } else {
        d
    }
}

pub fn fx_of_count(n: usize) -> (r: i64)
    ensures
        r as int == spec_of_count(n as int),
{
    if n >= 32768 {
        assert(n as int * (SCALE as int) >= 32768 * (SCALE as int)) by (nonlinear_arith)
            requires
                n as int >= 32768,
        ;
        LIMIT
    } else {
        (n as i64) * SCALE
    }
}

} // verus!
