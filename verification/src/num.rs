use vstd::prelude::*;

verus! {

/// Largest coordinate magnitude the simulation stores, in milli-units.
/// Integration clamps to this box, so well-formedness is preserved by
/// every tick.
pub const MAX_COORD: i64 = 0x4000_0000_0000;

/// Largest velocity magnitude, in milli-units per millisecond (numerically
/// equal to world units per second).
pub const MAX_VEL: i64 = 0x4000_0000;

/// Largest frame delta accepted by the update pipeline, in milliseconds.
pub const MAX_DT: i64 = 0x10_0000;

/// Largest particle lifetime, in milliseconds.
pub const MAX_LIFE: i64 = 0x100_0000_0000;

/// A coordinate clamped into the world box.
pub open spec fn clamp_coord(x: int) -> int {
    if x < -MAX_COORD {
        -MAX_COORD as int
    } else if x > MAX_COORD {
        MAX_COORD as int
    } else {
        x
    }
}

pub open spec fn coord_ok(x: int) -> bool {
    -MAX_COORD <= x <= MAX_COORD
}

pub open spec fn vel_ok(v: int) -> bool {
    -MAX_VEL <= v <= MAX_VEL
}

pub open spec fn dt_ok(dt: int) -> bool {
    0 <= dt <= MAX_DT
}

/// One axis of linear motion: the position advanced by `v * dt` and clamped
/// into the world box.
pub open spec fn advanced(p: int, v: int, dt: int) -> int {
    clamp_coord(p + v * dt)
}

/// Straight-line integration of one coordinate over one frame.
pub fn advance(p: i64, v: i64, dt: i64) -> (r: i64)
    requires
        coord_ok(p as int),
        vel_ok(v as int),
        dt_ok(dt as int),
    ensures
        r as int == advanced(p as int, v as int, dt as int),
        coord_ok(r as int),
{
    proof {
        assert(-(MAX_VEL as int) * (MAX_DT as int) <= v * dt <= (MAX_VEL as int) * (MAX_DT
            as int)) by (nonlinear_arith)
            requires
                vel_ok(v as int),
                dt_ok(dt as int),
        ;
    }
    let moved: i64 = v * dt;
    let sum: i64 = p + moved;
    if sum < -MAX_COORD {
        -MAX_COORD
    } else if sum > MAX_COORD {
        MAX_COORD
    } else {
        sum
    }
}

/// The square of a coordinate-sized value, computed in 128 bits.
pub fn square_wide(d: i64) -> (r: i128)
    requires
        -0x8000_0000_0000 <= d <= 0x8000_0000_0000,
    ensures
        r == d * d,
        0 <= r <= 0x4000_0000_0000_0000_0000_0000,
{
    proof {
        assert((d as i128) * (d as i128) == (d as int) * (d as int) && 0 <= (d as int) * (d
            as int) <= 0x4000_0000_0000_0000_0000_0000) by (nonlinear_arith)
            requires
                -0x8000_0000_0000 <= d <= 0x8000_0000_0000,
        ;
    }
    (d as i128) * (d as i128)
}

/// A component `d` of a vector of length `dist`, rescaled to a vector of
/// length `num`: the magnitude is scaled by `num / dist` rounding toward
/// zero, the sign is kept.
pub open spec fn scaled_toward(d: int, num: int, dist: int) -> int {
    if d >= 0 {
        d * num / dist
    } else {
        -((-d) * num / dist)
    }
}

/// Rescales one direction component to a target magnitude; the result never
/// exceeds `num` because the component never exceeds the length.
pub fn scale_toward(d: i64, num: i64, dist: u64) -> (r: i64)
    requires
        1 <= dist <= 0x1_0000_0000_0000,
        -(dist as int) <= d <= dist as int,
        1 <= num <= 0x4000_0000,
    ensures
        r as int == scaled_toward(d as int, num as int, dist as int),
        -num <= r <= num,
{
    let m: u64 = if d >= 0 {
        d as u64
    } else {
        (-d) as u64
    };
    proof {
        assert((m as u128) * (num as u128) == (m as int) * (num as int) && (m as int) * (num
            as int) <= (dist as int) * (num as int) && (m as int) * (num as int)
            < 0x4000_0000_0000_0000_0000_0000) by (nonlinear_arith)
            requires
                0 <= m <= dist <= 0x1_0000_0000_0000u64,
                1 <= num <= 0x4000_0000,
        ;
        vstd::arithmetic::div_mod::lemma_div_is_ordered(
            (m as int) * (num as int),
            (dist as int) * (num as int),
            dist as int,
        );
        vstd::arithmetic::div_mod::lemma_div_multiples_vanish(num as int, dist as int);
        assert((dist as int) * (num as int) == (dist as int) * (num as int));
        assert((dist as int) * (num as int) / (dist as int) == num as int);
        assert((m as int) * (num as int) >= 0) by (nonlinear_arith)
            requires
                m >= 0,
                num >= 1,
        ;
        vstd::arithmetic::div_mod::lemma_div_pos_is_pos((m as int) * (num as int), dist as int);
    }
    let q: u64 = (((m as u128) * (num as u128)) / (dist as u128)) as u64;
    if d >= 0 {
        q as i64
    } else {
        -(q as i64)
    }
}

/// The product of a velocity-sized value and a per-mille jitter, exact and
/// overflow-free.
pub fn mul_small(a: i64, b: i64) -> (r: i64)
    requires
        -0x4000_0000 <= a <= 0x4000_0000,
        -0x400 <= b <= 0x400,
    ensures
        r == a * b,
        -0x100_0000_0000 <= r <= 0x100_0000_0000,
{
    proof {
        assert(-0x100_0000_0000 <= (a as int) * (b as int) <= 0x100_0000_0000)
            by (nonlinear_arith)
            requires
                -0x4000_0000 <= a <= 0x4000_0000,
                -0x400 <= b <= 0x400,
        ;
    }
    a * b
}

/// The floor of the square root, as a specification value.
pub open spec fn sqrt_floor(n: int) -> int {
    choose|r: int| 0 <= r && #[trigger] (r * r) <= n && n < (r + 1) * (r + 1)
}

/// Any witness of the floor-square-root property is `sqrt_floor`.
pub proof fn lemma_sqrt_floor_is(n: int, r: int)
    requires
        0 <= r,
        r * r <= n,
        n < (r + 1) * (r + 1),
    ensures
        sqrt_floor(n) == r,
{
    assert(exists|x: int| 0 <= x && #[trigger] (x * x) <= n && n < (x + 1) * (x + 1)) by {
        assert(0 <= r && r * r <= n && n < (r + 1) * (r + 1));
    }
    let c = sqrt_floor(n);
    assert(0 <= c && c * c <= n && n < (c + 1) * (c + 1));
    assert(c == r) by (nonlinear_arith)
        requires
            0 <= c,
            c * c <= n,
            n < (c + 1) * (c + 1),
            0 <= r,
            r * r <= n,
            n < (r + 1) * (r + 1),
    ;
}

/// Floor of the square root: `r * r <= n < (r + 1) * (r + 1)`.
pub fn isqrt(n: u128) -> (r: u64)
    requires
        n < 0x1_0000_0000_0000_0000_0000_0000u128,
    ensures
        (r as int) * (r as int) <= n as int,
        (r as int + 1) * (r as int + 1) > n as int,
{
    let mut lo: u64 = 0;
    let mut hi: u64 = 0x1_0000_0000_0000;
    proof {
        assert((hi as int) * (hi as int) > n as int) by (nonlinear_arith)
            requires
                hi == 0x1_0000_0000_0000u64,
                n < 0x1_0000_0000_0000_0000_0000_0000u128,
        ;
    }
    while lo + 1 < hi
        invariant
            lo < hi,
            hi <= 0x1_0000_0000_0000u64,
            (lo as int) * (lo as int) <= n as int,
            (hi as int) * (hi as int) > n as int,
        decreases hi - lo,
    {
        let mid: u64 = lo + (hi - lo) / 2;
        proof {
            assert((mid as int) * (mid as int) < 0x1_0000_0000_0000_0000_0000_0000)
                by (nonlinear_arith)
                requires
                    mid < 0x1_0000_0000_0000u64,
            ;
        }
        if (mid as u128) * (mid as u128) <= n {
            lo = mid;
        } else {
            hi = mid;
        }
    }
    lo
}

} // verus!
