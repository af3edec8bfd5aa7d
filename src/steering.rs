use vstd::prelude::*;

use vstd::arithmetic::div_mod::{
    lemma_div_denominator, lemma_div_is_ordered_by_denominator, lemma_fundamental_div_mod,
    lemma_fundamental_div_mod_converse,
};

use crate::geometry::{Point, COORD_LIMIT, SCALE};

verus! {

/// Sensing radius, in position units.
pub const SENSE_RANGE: i64 = 100_000;

/// Radius of an agent, in position units.
pub const AGENT_RADIUS: i64 = 5_000;

/// Radius of a food item, in position units.
pub const FOOD_RADIUS: i64 = 3_000;

/// An agent whose centre is this close to a food item's centre eats it.
pub const EAT_RANGE: i64 = AGENT_RADIUS + FOOD_RADIUS;

/// Headings are measured in microradians and kept in `[0, FULL_TURN)`.
pub const FULL_TURN: i64 = 6_283_185;

/// The turn, in microradians, caused by a target one position unit away when
/// the sensitivity factor is one thousandth: `10^6` microradians per radian
/// times `SCALE` units per world unit times the sensitivity scale of 1000.
pub const TURN_NUMERATOR: u128 = 1_000_000_000_000;

/// Largest number of targets an agent reacts to in one tick.
pub const MAX_TARGETS: usize = 3;

/// The integer square root: the largest `r` with `r * r <= n`.
pub open spec fn sqrt_floor(n: nat) -> nat
    decreases n,
{
    if n == 0 {
        0
    } else {
        let r = sqrt_floor((n - 1) as nat);
        if (r + 1) * (r + 1) <= n {
            r + 1
        } else {
            r
        }
    }
}

pub proof fn lemma_sqrt_floor(n: nat)
    ensures
        sqrt_floor(n) * sqrt_floor(n) <= n < (sqrt_floor(n) + 1) * (sqrt_floor(n) + 1),
    decreases n,
{
    let s = sqrt_floor(n);
    if n == 0 {
        assert(s == 0);
        assert((s + 1) * (s + 1) == 1) by (nonlinear_arith)
            requires
                s == 0,
        ;
    } else {
        lemma_sqrt_floor((n - 1) as nat);
        let r = sqrt_floor((n - 1) as nat);
        if (r + 1) * (r + 1) <= n {
            assert(s == r + 1);
            assert(n < (s + 1) * (s + 1)) by (nonlinear_arith)
                requires
                    n - 1 < (r + 1) * (r + 1),
                    s == r + 1,
            ;
        } else {
            assert(s == r);
            assert(s * s <= n);
        }
    }
}

/// `sqrt_floor(n)` is the only `r` with `r * r <= n < (r + 1) * (r + 1)`.
pub proof fn lemma_sqrt_floor_unique(n: nat, r: nat)
    requires
        r * r <= n < (r + 1) * (r + 1),
    ensures
        sqrt_floor(n) == r,
{
    lemma_sqrt_floor(n);
    let s = sqrt_floor(n);
    if s < r {
        assert((s + 1) * (s + 1) <= r * r) by (nonlinear_arith)
            requires
                s + 1 <= r,
        ;
    } else if r < s {
        assert((r + 1) * (r + 1) <= s * s) by (nonlinear_arith)
            requires
                r + 1 <= s,
        ;
    }
}

/// The integer square root of `n`, by bisection.
pub fn isqrt(n: u128) -> (r: u64)
    ensures
        r == sqrt_floor(n as nat),
{
    let mut lo: u128 = 0;
    let mut hi: u128 = 0x1_0000_0000_0000_0000;
    assert(n < hi * hi) by (nonlinear_arith)
        requires
            hi == 0x1_0000_0000_0000_0000u128,
            n <= u128::MAX,
    ;
    while hi - lo > 1
        invariant
            lo < hi <= 0x1_0000_0000_0000_0000,
            lo * lo <= n < hi * hi,
        decreases hi - lo,
    {
        let mid = lo + (hi - lo) / 2;
        assert(mid * mid <= 0xffff_ffff_ffff_ffff * 0xffff_ffff_ffff_ffff) by (nonlinear_arith)
            requires
                mid < 0x1_0000_0000_0000_0000,
        ;
        if mid * mid <= n {
            lo = mid;
        } else {
            hi = mid;
        }
    }
    proof {
        lemma_sqrt_floor_unique(n as nat, lo as nat);
    }
    lo as u64
}

/// One thousand times `f` to the power 1.5, rounded down; `f = 0` counts as one.
pub open spec fn sensitivity_spec(f: nat) -> nat {
    if f == 0 {
        1000
    } else {
        sqrt_floor(f * f * f * 1_000_000)
    }
}

/// How strongly an agent that has collected `food_collected` items damps its
/// reaction to a target: one thousand times `food_collected` to the power 1.5.
pub fn sensitivity(food_collected: u32) -> (r: u64)
    ensures
        r == sensitivity_spec(food_collected as nat),
        r >= 1000,
{
    if food_collected == 0 {
        1000
    } else {
        let f = food_collected as u128;
        assert(f * f <= 0x1_0000_0000_0000_0000) by (nonlinear_arith)
            requires
                1 <= f <= 0xffff_ffff,
        ;
        assert(f * f * f <= 0x1_0000_0000_0000_0000_0000_0000) by (nonlinear_arith)
            requires
                1 <= f <= 0xffff_ffff,
                f * f <= 0x1_0000_0000_0000_0000,
        ;
        let r = isqrt(f * f * f * 1_000_000);
        proof {
            assert(1000 * 1000 <= f * f * f * 1_000_000) by (nonlinear_arith)
                requires
                    1 <= f,
            ;
            lemma_sqrt_floor((f * f * f * 1_000_000) as nat);
            let s = sqrt_floor((f * f * f * 1_000_000) as nat);
            if s < 1000 {
                assert((s + 1) * (s + 1) <= 1000 * 1000) by (nonlinear_arith)
                    requires
                        s + 1 <= 1000,
                ;
            }
        }
        r
    }
}

/// The size of the turn, in microradians, toward a target at squared distance
/// `d2`: one radian divided by the distance in world units and by
/// `food_collected` to the power 1.5. A target at distance zero gives none.
pub open spec fn turn_size(d2: nat, f: nat) -> int {
    if sqrt_floor(d2) == 0 {
        0
    } else {
        (TURN_NUMERATOR as int) / ((sqrt_floor(d2) * sensitivity_spec(f)) as int)
    }
}

pub fn turn_amount(d2: u128, food_collected: u32) -> (r: u64)
    ensures
        r == turn_size(d2 as nat, food_collected as nat),
        r <= 1_000_000_000,
{
    let d = isqrt(d2);
    if d == 0 {
        0
    } else {
        let s = sensitivity(food_collected);
        assert(d * s <= 0xffff_ffff_ffff_ffff * 0xffff_ffff_ffff_ffff) by (nonlinear_arith)
            requires
                d <= 0xffff_ffff_ffff_ffffu64,
                s <= 0xffff_ffff_ffff_ffffu64,
        ;
        let den = d as u128 * s as u128;
        assert(den >= 1000) by (nonlinear_arith)
            requires
                den == d * s,
                d >= 1,
                s >= 1000,
        ;
        assert(TURN_NUMERATOR / den <= 1_000_000_000) by (nonlinear_arith)
            requires
                den >= 1000,
        ;
        (TURN_NUMERATOR / den) as u64
    }
}

/// The turn direction toward `offset` for an agent facing `dir`: `1` when the
/// target lies in the left half-turn from the heading (dead ahead included),
/// `-1` otherwise (dead behind included).
pub open spec fn turn_sign(dir: Point, offset: Point) -> int {
    let cross = dir.x * offset.y - dir.y * offset.x;
    let dot = dir.x * offset.x + dir.y * offset.y;
    if cross > 0 || (cross == 0 && dot > 0) {
        1
    } else {
        -1
    }
}

pub fn steer(dir: &Point, offset: &Point) -> (r: i64)
    requires
        -SCALE <= dir.x <= SCALE,
        -SCALE <= dir.y <= SCALE,
        offset.in_limits(),
    ensures
        r == turn_sign(*dir, *offset),
{
    let (dx, dy) = (dir.x as i128, dir.y as i128);
    let (ox, oy) = (offset.x as i128, offset.y as i128);
    assert(-SCALE * COORD_LIMIT <= dx * oy <= SCALE * COORD_LIMIT) by (nonlinear_arith)
        requires
            -SCALE <= dx <= SCALE,
            -COORD_LIMIT <= oy <= COORD_LIMIT,
    ;
    assert(-SCALE * COORD_LIMIT <= dy * ox <= SCALE * COORD_LIMIT) by (nonlinear_arith)
        requires
            -SCALE <= dy <= SCALE,
            -COORD_LIMIT <= ox <= COORD_LIMIT,
    ;
    assert(-SCALE * COORD_LIMIT <= dx * ox <= SCALE * COORD_LIMIT) by (nonlinear_arith)
        requires
            -SCALE <= dx <= SCALE,
            -COORD_LIMIT <= ox <= COORD_LIMIT,
    ;
    assert(-SCALE * COORD_LIMIT <= dy * oy <= SCALE * COORD_LIMIT) by (nonlinear_arith)
        requires
            -SCALE <= dy <= SCALE,
            -COORD_LIMIT <= oy <= COORD_LIMIT,
    ;
    let cross = dx * oy - dy * ox;
    let dot = dx * ox + dy * oy;
    if cross > 0 || (cross == 0 && dot > 0) {
        1
    } else {
        -1
    }
}

/// `v` reduced into `[0, len)` by Euclidean remainder: leaving one edge of the
/// world re-enters at the opposite one.
pub fn wrap(v: i64, len: i64) -> (r: i64)
    requires
        0 < len,
        -COORD_LIMIT <= v <= COORD_LIMIT,
    ensures
        r == v % len,
        0 <= r < len,
{
    if v >= 0 {
        let r = ((v as u64) % (len as u64)) as i64;
        r
    } else {
        let a: u64 = (-v) as u64;
        let m: u64 = a % (len as u64);
        proof {
            lemma_fundamental_div_mod(a as int, len as int);
        }
        let q = a / (len as u64);
        if m == 0 {
            proof {
                assert(v == -(q as int) * len + 0) by (nonlinear_arith)
                    requires
                        a == len * q + m,
                        m == 0,
                        v == -a,
                ;
                lemma_fundamental_div_mod_converse(v as int, len as int, -(q as int), 0);
            }
            0
        } else {
            proof {
                assert(v == (-(q as int) - 1) * len + (len - m)) by (nonlinear_arith)
                    requires
                        a == len * q + m,
                        v == -a,
                ;
                lemma_fundamental_div_mod_converse(v as int, len as int, -(q as int) - 1, len - m);
            }
            len - m as i64
        }
    }
}

/// `a` reduced into `[0, FULL_TURN)`.
pub open spec fn norm_angle(a: int) -> int {
    a % (FULL_TURN as int)
}

/// Diminishing sensitivity: at any distance within the sensing range, a target
/// turns an agent that has collected no food strictly more than it turns one
/// that has collected four items.
pub proof fn law_diminishing_sensitivity(d2: nat)
    requires
        1 <= d2 <= SENSE_RANGE * SENSE_RANGE,
    ensures
        turn_size(d2, 0) > turn_size(d2, 4),
        turn_size(d2, 4) >= 0,
{
    assert(8000 * 8000 <= 64_000_000nat < 8001 * 8001) by (nonlinear_arith);
    lemma_sqrt_floor_unique(64_000_000, 8000);
    assert(sensitivity_spec(4) == 8000);
    lemma_sqrt_floor(d2);
    let d = sqrt_floor(d2);
    if d == 0 {
        assert((d + 1) * (d + 1) == 1) by (nonlinear_arith)
            requires
                d == 0,
        ;
    }
    assert(d <= SENSE_RANGE) by (nonlinear_arith)
        requires
            d * d <= d2,
            d2 <= SENSE_RANGE * SENSE_RANGE,
    ;
    let x = d * 1000;
    assert(x * 8 == d * 8000);
    lemma_div_denominator(TURN_NUMERATOR as int, x as int, 8);
    lemma_div_is_ordered_by_denominator(TURN_NUMERATOR as int, x as int, SENSE_RANGE * 1000);
    assert((TURN_NUMERATOR as int) / (SENSE_RANGE * 1000) == 10_000);
    let a = (TURN_NUMERATOR as int) / (x as int);
    assert(a / 8 < a);
}

/// Toroidal wraparound: a coordinate in `[0, len)` moved by at most `len` in
/// either direction lands in `[0, len)` again, re-entering at the opposite edge
/// when it leaves, and staying put in value when it does not.
pub proof fn law_toroidal_wrap(v: int, d: int, len: int)
    requires
        0 < len,
        0 <= v < len,
        -len <= d <= len,
    ensures
        0 <= (v + d) % len < len,
        v + d >= len ==> (v + d) % len == v + d - len,
        v + d < 0 ==> (v + d) % len == v + d + len,
        0 <= v + d < len ==> (v + d) % len == v + d,
{
    if v + d >= len {
        lemma_fundamental_div_mod_converse(v + d, len, 1, v + d - len);
    } else if v + d < 0 {
        lemma_fundamental_div_mod_converse(v + d, len, -1, v + d + len);
    } else {
        lemma_fundamental_div_mod_converse(v + d, len, 0, v + d);
    }
}

} // verus!
