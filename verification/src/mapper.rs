//! Kinematic mapping from a 4-axis joystick sample to 4 normalized wheel
//! speeds for a mecanum-style drivetrain.
//!
//! All values are fixed-point milli-units (1000 = full scale). The mapper is
//! total: any input yields four speeds, each within `[-MILLI, MILLI]` after
//! normalization.

use vstd::prelude::*;
use vstd::arithmetic::div_mod::{lemma_div_is_ordered, lemma_div_multiples_vanish, lemma_fundamental_div_mod};

verus! {

/// Fixed-point scale: this many milli-units stand for a speed of 1.0.
pub const MILLI: i32 = 1000;

/// One joystick sample: left-stick and right-stick axes in milli-units.
/// `ry` is carried by the protocol but does not drive the wheels.
pub struct JoystickData {
    pub lx: i32,
    pub ly: i32,
    pub rx: i32,
    pub ry: i32,
}

/// Magnitude of an integer.
pub open spec fn abs_val(v: int) -> int {
    if v < 0 {
        -v
    } else {
        v
    }
}

/// The larger of two integers.
pub open spec fn max_val(a: int, b: int) -> int {
    if a >= b {
        a
    } else {
        b
    }
}

/// Raw (pre-normalization) speed of wheel `k` (0..4): the fixed linear
/// combination of the three motion axes.
pub open spec fn raw_speed(k: int, lx: int, ly: int, rx: int) -> int {
    if k == 0 {
        lx + ly + rx
    } else if k == 1 {
        -lx + ly - rx
    } else if k == 2 {
        -lx - ly + rx
    } else {
        lx - ly - rx
    }
}

/// Largest raw-speed magnitude over the four wheels.
pub open spec fn peak(lx: int, ly: int, rx: int) -> int {
    max_val(
        max_val(abs_val(raw_speed(0, lx, ly, rx)), abs_val(raw_speed(1, lx, ly, rx))),
        max_val(abs_val(raw_speed(2, lx, ly, rx)), abs_val(raw_speed(3, lx, ly, rx))),
    )
}

/// `m` scaled by `MILLI / p`, rounding the magnitude down (toward zero).
pub open spec fn scaled(m: int, p: int) -> int
    recommends
        p > 0,
{
    if m >= 0 {
        (m * MILLI) / p
    } else {
        -((-m * MILLI) / p)
    }
}

/// Final speed of wheel `k`: the raw speed, divided by the peak magnitude
/// whenever that magnitude exceeds full scale.
pub open spec fn motor_speed(k: int, lx: int, ly: int, rx: int) -> int {
    let p = peak(lx, ly, rx);
    let m = raw_speed(k, lx, ly, rx);
    if p <= MILLI {
        m
    } else {
        scaled(m, p)
    }
}

/// Scales a nonnegative magnitude `m <= p` by `MILLI / p`, rounding down.
fn scale_mag(m: u64, p: u64) -> (r: u64)
    requires
        0 < p,
        m <= p,
        p < 0x2_0000_0000u64,
    ensures
        r == (m * MILLI) / (p as int),
        r <= MILLI,
{
    proof {
        lemma_div_is_ordered(m as int * MILLI, p as int * MILLI, p as int);
        lemma_div_multiples_vanish(MILLI as int, p as int);
    }
    (m * (MILLI as u64)) / p
}

/// Computes the four normalized wheel speeds for one joystick sample.
///
/// Each wheel speed is the fixed linear combination of `lx`, `ly`, `rx`
/// (`ry` is unused), and the whole vector is divided by its peak magnitude
/// whenever that peak exceeds full scale, so no output leaves
/// `[-MILLI, MILLI]` while the commanded direction is kept.
pub fn calculate_motor_speeds(data: &JoystickData) -> (r: [i32; 4])
    ensures
        forall|k: int|
            #![auto]
            0 <= k < 4 ==> r[k] as int == motor_speed(
                k,
                data.lx as int,
                data.ly as int,
                data.rx as int,
            ),
        -MILLI <= r[0] as int <= MILLI,
        -MILLI <= r[1] as int <= MILLI,
        -MILLI <= r[2] as int <= MILLI,
        -MILLI <= r[3] as int <= MILLI,
{
    let lx = data.lx as i64;
    let ly = data.ly as i64;
    let rx = data.rx as i64;

    let m1: i64 = lx + ly + rx;
    let m2: i64 = -lx + ly - rx;
    let m3: i64 = -lx - ly + rx;
    let m4: i64 = lx - ly - rx;

    let a1: u64 = abs_i64(m1);
    let a2: u64 = abs_i64(m2);
    let a3: u64 = abs_i64(m3);
    let a4: u64 = abs_i64(m4);

    let pk: u64 = max_u64(max_u64(a1, a2), max_u64(a3, a4));
    assert(pk == peak(data.lx as int, data.ly as int, data.rx as int));

    if pk <= MILLI as u64 {
        [m1 as i32, m2 as i32, m3 as i32, m4 as i32]
    } else {
        [
            scale_signed(m1, pk),
            scale_signed(m2, pk),
            scale_signed(m3, pk),
            scale_signed(m4, pk),
        ]
    }
}

/// Magnitude of an `i64` whose value stays well inside the type's range.
fn abs_i64(v: i64) -> (r: u64)
    requires
        -0x2_0000_0000i64 <= v <= 0x2_0000_0000i64,
    ensures
        r == abs_val(v as int),
{
    if v < 0 {
        (-v) as u64
    } else {
        v as u64
    }
}

/// The larger of two `u64` values.
fn max_u64(a: u64, b: u64) -> (r: u64)
    ensures
        r == max_val(a as int, b as int),
{
    if a >= b {
        a
    } else {
        b
    }
}

/// One wheel's normalized speed when the peak exceeds full scale.
fn scale_signed(m: i64, p: u64) -> (r: i32)
    requires
        MILLI < p < 0x2_0000_0000u64,
        abs_val(m as int) <= p,
    ensures
        r as int == scaled(m as int, p as int),
        -MILLI <= r as int <= MILLI,
{
    if m >= 0 {
        let q = scale_mag(m as u64, p);
        q as i32
    } else {
        let q = scale_mag((-m) as u64, p);
        -(q as i32)
    }
}

/// Below full scale the mapper changes nothing: whenever no raw wheel speed
/// exceeds `MILLI` in magnitude, every output equals its raw speed.
pub proof fn lemma_mapper_identity(lx: int, ly: int, rx: int)
    requires
        peak(lx, ly, rx) <= MILLI,
    ensures
        forall|k: int| 0 <= k < 4 ==> motor_speed(k, lx, ly, rx) == raw_speed(k, lx, ly, rx),
{
}

/// After mapping, no wheel speed exceeds full scale, the sign of every wheel
/// speed is kept, and — when normalization applies — each output differs from
/// the exact scaling `raw * MILLI / peak` by less than one part in `peak`:
/// `|out * peak - raw * MILLI| < peak`, so the ratios between the outputs
/// are the ratios of the raw speeds up to rounding.
pub proof fn lemma_mapper_normalized(lx: int, ly: int, rx: int)
    ensures
        forall|k: int| 0 <= k < 4 ==> abs_val(motor_speed(k, lx, ly, rx)) <= MILLI,
        forall|k: int|
            #![auto]
            0 <= k < 4 ==> (raw_speed(k, lx, ly, rx) >= 0 ==> motor_speed(k, lx, ly, rx) >= 0)
                && (raw_speed(k, lx, ly, rx) <= 0 ==> motor_speed(k, lx, ly, rx) <= 0),
        peak(lx, ly, rx) > MILLI ==> forall|k: int|
            0 <= k < 4 ==> abs_val(
                motor_speed(k, lx, ly, rx) * peak(lx, ly, rx) - raw_speed(k, lx, ly, rx) * MILLI,
            ) < peak(lx, ly, rx),
{
    let p = peak(lx, ly, rx);
    assert forall|k: int| 0 <= k < 4 implies abs_val(motor_speed(k, lx, ly, rx)) <= MILLI
        && (raw_speed(k, lx, ly, rx) >= 0 ==> motor_speed(k, lx, ly, rx) >= 0) && (raw_speed(
        k,
        lx,
        ly,
        rx,
    ) <= 0 ==> motor_speed(k, lx, ly, rx) <= 0) && (p > MILLI ==> abs_val(
        motor_speed(k, lx, ly, rx) * p - raw_speed(k, lx, ly, rx) * MILLI,
    ) < p) by {
        let m = raw_speed(k, lx, ly, rx);
        if p <= MILLI {
            assert(abs_val(m) <= p);
        } else {
            lemma_scaled_bounds(m, p);
        }
    }
}

/// Division facts behind normalization: for `|m| <= p`, the scaled value
/// keeps the sign of `m`, stays within `[-MILLI, MILLI]`, and satisfies
/// `|scaled * p - m * MILLI| < p`.
proof fn lemma_scaled_bounds(m: int, p: int)
    requires
        p > 0,
        abs_val(m) <= p,
    ensures
        abs_val(scaled(m, p)) <= MILLI,
        m >= 0 ==> scaled(m, p) >= 0,
        m <= 0 ==> scaled(m, p) <= 0,
        abs_val(scaled(m, p) * p - m * MILLI) < p,
{
    let a = abs_val(m);
    let q = (a * MILLI) / p;
    lemma_div_is_ordered(0, a * MILLI, p);
    lemma_div_is_ordered(a * MILLI, p * MILLI, p);
    lemma_div_multiples_vanish(MILLI as int, p);
    assert(0 <= q <= MILLI);
    lemma_fundamental_div_mod(a * MILLI, p);
    let rem = (a * MILLI) % p;
    assert(a * MILLI == p * q + rem);
    assert(abs_val(q * p - a * MILLI) < p) by {
        assert(q * p - a * MILLI == -rem) by (nonlinear_arith)
            requires
                a * MILLI == p * q + rem,
        ;
    }
    if m >= 0 {
        assert(scaled(m, p) == q);
    } else {
        assert(scaled(m, p) == -q);
        assert(scaled(m, p) * p - m * MILLI == -(q * p - a * MILLI)) by (nonlinear_arith)
            requires
                scaled(m, p) == -q && m == -a,
        ;
    }
}

} // verus!
