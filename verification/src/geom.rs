//! Integer 2D geometry: bounded world coordinates, squared distances,
//! an integer square root, and movement steps along a direction vector.

use vstd::prelude::*;

verus! {

/// Half-width of the coordinate range the simulation works in.
/// Every entity position is kept within `[-COORD_LIMIT, COORD_LIMIT]`
/// on each axis, which keeps all squared-distance arithmetic inside
/// `i64`/`u64` range.
pub const COORD_LIMIT: i64 = 1_000_000_000;

/// A 2D point or direction vector in integer world coordinates.
#[derive(Clone, Copy, PartialEq, Eq, Structural, Debug)]
pub struct Vec2 {
    pub x: i64,
    pub y: i64,
}

/// The point lies inside the simulated coordinate range.
pub open spec fn in_world(p: Vec2) -> bool {
    &&& -COORD_LIMIT <= p.x <= COORD_LIMIT
    &&& -COORD_LIMIT <= p.y <= COORD_LIMIT
}

/// The point lies at least `m` inside the simulated coordinate range
/// on each axis: a disc of radius `m` around it fits in the world.
pub open spec fn in_world_margin(p: Vec2, m: int) -> bool {
    &&& -COORD_LIMIT + m <= p.x <= COORD_LIMIT - m
    &&& -COORD_LIMIT + m <= p.y <= COORD_LIMIT - m
}

/// Squared Euclidean distance between two points.
pub open spec fn dist_sq(a: Vec2, b: Vec2) -> int {
    (b.x - a.x) * (b.x - a.x) + (b.y - a.y) * (b.y - a.y)
}

pub open spec fn abs_val(v: int) -> int {
    if v < 0 {
        -v
    } else {
        v
    }
}

/// Integer square root: the greatest `r` with `r * r <= n`.
pub open spec fn isqrt(n: nat) -> nat
    decreases n,
{
    if n == 0 {
        0
    } else {
        let r = isqrt((n - 1) as nat);
        if (r + 1) * (r + 1) <= n {
            r + 1
        } else {
            r
        }
    }
}

pub proof fn lemma_isqrt_bounds(n: nat)
    ensures
        isqrt(n) * isqrt(n) <= n < (isqrt(n) + 1) * (isqrt(n) + 1),
    decreases n,
{
    if n == 0 {
        assert(isqrt(0) == 0);
        assert(isqrt(n) * isqrt(n) == 0) by (nonlinear_arith)
            requires
                isqrt(n) == 0,
        ;
        assert((isqrt(n) + 1) * (isqrt(n) + 1) == 1) by (nonlinear_arith)
            requires
                isqrt(n) == 0,
        ;
    } else {
        lemma_isqrt_bounds((n - 1) as nat);
        let r = isqrt((n - 1) as nat);
        if (r + 1) * (r + 1) <= n {
            assert(isqrt(n) == r + 1);
            assert((r + 1) * (r + 1) < (r + 2) * (r + 2)) by (nonlinear_arith);
            assert(n - 1 < (r + 1) * (r + 1));
            assert(n < (r + 2) * (r + 2));
        } else {
            assert(isqrt(n) == r);
        }
    }
}

pub proof fn lemma_isqrt_unique(n: nat, r: nat)
    requires
        r * r <= n < (r + 1) * (r + 1),
    ensures
        isqrt(n) == r,
{
    lemma_isqrt_bounds(n);
    let s = isqrt(n);
    if s < r {
        assert((s + 1) * (s + 1) <= r * r) by (nonlinear_arith)
            requires
                s + 1 <= r,
        ;
    }
    if r < s {
        assert((r + 1) * (r + 1) <= s * s) by (nonlinear_arith)
            requires
                r + 1 <= s,
        ;
    }
}

pub proof fn lemma_isqrt_mono(a: nat, b: nat)
    requires
        a <= b,
    ensures
        isqrt(a) <= isqrt(b),
    decreases b,
{
    if a < b {
        lemma_isqrt_mono(a, (b - 1) as nat);
    }
}

/// `isqrt` of a perfect square is its root.
pub proof fn lemma_isqrt_square(r: nat)
    ensures
        isqrt(r * r) == r,
{
    assert(r * r < (r + 1) * (r + 1)) by (nonlinear_arith);
    lemma_isqrt_unique(r * r, r);
}

/// Integer square root of a `u64`, by binary search.
pub fn isqrt64(n: u64) -> (r: u64)
    ensures
        r == isqrt(n as nat),
        r * r <= n < (r + 1) * (r + 1),
{
    let mut lo: u64 = 0;
    let mut hi: u64 = 4_294_967_296;
    assert(0x1_0000_0000int * 0x1_0000_0000int == 0x1_0000_0000_0000_0000int) by (nonlinear_arith);
    while lo + 1 < hi
        invariant
            lo < hi <= 4_294_967_296,
            (lo as int) * (lo as int) <= n as int,
            (n as int) < (hi as int) * (hi as int),
        decreases hi - lo,
    {
        let mid: u64 = lo + (hi - lo) / 2;
        assert(0 <= (mid as int) * (mid as int) <= 0x1_0000_0000int * 0x1_0000_0000int)
            by (nonlinear_arith)
            requires
                0 <= mid as int <= 0x1_0000_0000int,
        ;
        assert(0x1_0000_0000int * 0x1_0000_0000int == 0x1_0000_0000_0000_0000int)
            by (nonlinear_arith);
        let sq: u128 = (mid as u128) * (mid as u128);
        if sq <= n as u128 {
            lo = mid;
        } else {
            hi = mid;
        }
    }
    proof {
        lemma_isqrt_unique(n as nat, lo as nat);
        lemma_isqrt_bounds(n as nat);
    }
    lo
}

/// Clamp a coordinate into the simulated range.
pub open spec fn clamp_coord(v: int) -> int {
    if v < -COORD_LIMIT {
        -COORD_LIMIT as int
    } else if v > COORD_LIMIT {
        COORD_LIMIT as int
    } else {
        v
    }
}

/// Displacement of magnitude (approximately) `step` along the direction
/// `(dx, dy)`: each component is scaled by `step / |(dx, dy)|` in integer
/// arithmetic. The zero vector yields no displacement.
pub open spec fn scaled_offset_x(dx: int, dy: int, step: int) -> int {
    if dx == 0 && dy == 0 {
        0
    } else {
        let l = isqrt((dx * dx + dy * dy) as nat) as int;
        if dx < 0 {
            -((-dx) * step / l)
        } else {
            dx * step / l
        }
    }
}

pub open spec fn scaled_offset_y(dx: int, dy: int, step: int) -> int {
    scaled_offset_x(dy, dx, step)
}

/// Both components of the scaled offset are bounded by `step`.
pub proof fn lemma_scaled_offset_bounds(dx: int, dy: int, step: int)
    requires
        0 <= step,
    ensures
        abs_val(scaled_offset_x(dx, dy, step)) <= step,
        abs_val(scaled_offset_y(dx, dy, step)) <= step,
{
    lemma_scaled_offset_x_bound(dx, dy, step);
    lemma_scaled_offset_x_bound(dy, dx, step);
}

proof fn lemma_scaled_offset_x_bound(dx: int, dy: int, step: int)
    requires
        0 <= step,
    ensures
        abs_val(scaled_offset_x(dx, dy, step)) <= step,
{
    if !(dx == 0 && dy == 0) {
        let a = abs_val(dx);
        let d2 = dx * dx + dy * dy;
        assert((-dx) * (-dx) == dx * dx && 0 <= dx * dx && 0 <= dy * dy) by (nonlinear_arith);
        assert(a * a <= d2 && 0 <= a * a);
        assert(d2 > 0) by {
            if dx != 0 {
                assert(dx * dx >= 1) by (nonlinear_arith)
                    requires
                        dx != 0,
                ;
            } else {
                assert(dy * dy >= 1) by (nonlinear_arith)
                    requires
                        dy != 0,
                ;
            }
        }
        let l = isqrt(d2 as nat) as int;
        lemma_isqrt_square(a as nat);
        lemma_isqrt_mono((a * a) as nat, d2 as nat);
        assert(a <= l);
        lemma_isqrt_bounds(d2 as nat);
        if l == 0 {
            assert((l + 1) * (l + 1) == 1) by (nonlinear_arith)
                requires
                    l == 0,
            ;
        }
        assert(l >= 1);
        assert(a * step <= l * step) by (nonlinear_arith)
            requires
                a <= l,
                0 <= step,
        ;
        vstd::arithmetic::div_mod::lemma_div_is_ordered(a * step, l * step, l);
        vstd::arithmetic::div_mod::lemma_div_multiples_vanish(step, l);
        assert(l * step / l == step);
        vstd::arithmetic::div_mod::lemma_div_is_ordered(0, a * step, l);
        assert(0 <= a * step / l);
    }
}

/// Take one movement step of magnitude `step` from `from` toward `to`,
/// clamped into the world range.
pub open spec fn step_toward_spec(from: Vec2, to: Vec2, step: int) -> Vec2 {
    Vec2 {
        x: clamp_coord(from.x + scaled_offset_x(to.x - from.x, to.y - from.y, step)) as i64,
        y: clamp_coord(from.y + scaled_offset_y(to.x - from.x, to.y - from.y, step)) as i64,
    }
}

/// Move `pos` by a step of magnitude `step` along the (not necessarily
/// unit) direction `dir`, clamped into the world range.
pub open spec fn step_along_spec(pos: Vec2, dir: Vec2, step: int) -> Vec2 {
    Vec2 {
        x: clamp_coord(pos.x + scaled_offset_x(dir.x as int, dir.y as int, step)) as i64,
        y: clamp_coord(pos.y + scaled_offset_y(dir.x as int, dir.y as int, step)) as i64,
    }
}

/// Clamp a coordinate into the simulated range.
pub fn clamp_to_world(v: i64) -> (r: i64)
    ensures
        r == clamp_coord(v as int),
{
    if v < -COORD_LIMIT {
        -COORD_LIMIT
    } else if v > COORD_LIMIT {
        COORD_LIMIT
    } else {
        v
    }
}

/// Compute the scaled offset along `(dx, dy)` in executable code.
pub fn scaled_offset(dx: i64, dy: i64, step: u64) -> (r: (i64, i64))
    requires
        -2 * COORD_LIMIT <= dx <= 2 * COORD_LIMIT,
        -2 * COORD_LIMIT <= dy <= 2 * COORD_LIMIT,
        step <= COORD_LIMIT,
    ensures
        r.0 == scaled_offset_x(dx as int, dy as int, step as int),
        r.1 == scaled_offset_y(dx as int, dy as int, step as int),
        abs_val(r.0 as int) <= step,
        abs_val(r.1 as int) <= step,
{
    proof {
        lemma_scaled_offset_bounds(dx as int, dy as int, step as int);
    }
    if dx == 0 && dy == 0 {
        return (0, 0);
    }
    let ax: u64 = if dx < 0 {
        (-dx) as u64
    } else {
        dx as u64
    };
    let ay: u64 = if dy < 0 {
        (-dy) as u64
    } else {
        dy as u64
    };
    assert(ax == abs_val(dx as int) && ay == abs_val(dy as int));
    assert(0 <= (ax as int) * (ax as int) <= 4_000_000_000_000_000_000 && 0 <= (ay as int) * (
    ay as int) <= 4_000_000_000_000_000_000 && (ax as int) * (ax as int) + (ay as int) * (ay as int)
        == (dx as int) * (dx as int) + (dy as int) * (dy as int)) by (nonlinear_arith)
        requires
            ax as int == dx as int || ax as int == -(dx as int),
            ay as int == dy as int || ay as int == -(dy as int),
            -2_000_000_000 <= dx as int <= 2_000_000_000,
            -2_000_000_000 <= dy as int <= 2_000_000_000,
            0 <= ax as int,
            0 <= ay as int,
    ;
    let d2: u64 = ax * ax + ay * ay;
    let l: u64 = isqrt64(d2);
    assert(d2 >= 1) by {
        if ax >= 1 {
            assert((ax as int) * (ax as int) >= 1) by (nonlinear_arith)
                requires
                    ax as int >= 1,
            ;
        } else {
            assert((ay as int) * (ay as int) >= 1) by (nonlinear_arith)
                requires
                    ay as int >= 1,
            ;
        }
    }
    assert(l >= 1) by {
        if l == 0 {
            assert((l + 1) * (l + 1) == 1) by (nonlinear_arith)
                requires
                    l == 0,
            ;
        }
    }
    assert(ax <= l && ay <= l) by {
        lemma_isqrt_square(ax as nat);
        lemma_isqrt_square(ay as nat);
        lemma_isqrt_mono((ax * ax) as nat, d2 as nat);
        lemma_isqrt_mono((ay * ay) as nat, d2 as nat);
    }
    assert(ax * step <= 2_000_000_000_000_000_000 && ay * step <= 2_000_000_000_000_000_000)
        by (nonlinear_arith)
        requires
            0 <= ax <= 2_000_000_000,
            0 <= ay <= 2_000_000_000,
            step <= 1_000_000_000,
    ;
    let mx: u64 = ax * step / l;
    let my: u64 = ay * step / l;
    proof {
        assert(mx as int == scaled_offset_x(dx as int, dy as int, step as int) || mx as int == -(
        scaled_offset_x(dx as int, dy as int, step as int)));
        assert(my as int == scaled_offset_y(dx as int, dy as int, step as int) || my as int == -(
        scaled_offset_y(dx as int, dy as int, step as int)));
        assert(mx <= step && my <= step);
    }
    let ox: i64 = if dx < 0 {
        -(mx as i64)
    } else {
        mx as i64
    };
    let oy: i64 = if dy < 0 {
        -(my as i64)
    } else {
        my as i64
    };
    (ox, oy)
}

/// One movement step of magnitude `step` from `from` toward `to`.
pub fn step_toward(from: Vec2, to: Vec2, step: u64) -> (r: Vec2)
    requires
        in_world(from),
        in_world(to),
        step <= COORD_LIMIT,
    ensures
        r == step_toward_spec(from, to, step as int),
        in_world(r),
{
    let (ox, oy) = scaled_offset(to.x - from.x, to.y - from.y, step);
    Vec2 { x: clamp_to_world(from.x + ox), y: clamp_to_world(from.y + oy) }
}

/// One movement step of magnitude `step` from `pos` along `dir`.
pub fn step_along(pos: Vec2, dir: Vec2, step: u64) -> (r: Vec2)
    requires
        in_world(pos),
        -2 * COORD_LIMIT <= dir.x <= 2 * COORD_LIMIT,
        -2 * COORD_LIMIT <= dir.y <= 2 * COORD_LIMIT,
        step <= COORD_LIMIT,
    ensures
        r == step_along_spec(pos, dir, step as int),
        in_world(r),
{
    let (ox, oy) = scaled_offset(dir.x, dir.y, step);
    Vec2 { x: clamp_to_world(pos.x + ox), y: clamp_to_world(pos.y + oy) }
}

/// Homing progress law: as long as the target is at least `step` away
/// (by the integer norm of the gap), one step toward it never widens
/// either axis gap, never increases the squared distance, and shortens
/// the Manhattan distance by at least `step - 1` (one unit is lost to
/// integer rounding). Together with the steering contract, every
/// homing pass moves every enemy strictly closer to the player until
/// it is within one step of it.
pub proof fn lemma_step_toward_progress(from: Vec2, to: Vec2, step: int)
    requires
        in_world(from),
        in_world(to),
        0 <= step <= isqrt(dist_sq(from, to) as nat),
    ensures
        abs_val(to.x - step_toward_spec(from, to, step).x) <= abs_val(to.x - from.x),
        abs_val(to.y - step_toward_spec(from, to, step).y) <= abs_val(to.y - from.y),
        dist_sq(step_toward_spec(from, to, step), to) <= dist_sq(from, to),
        abs_val(to.x - step_toward_spec(from, to, step).x) + abs_val(
            to.y - step_toward_spec(from, to, step).y,
        ) <= abs_val(to.x - from.x) + abs_val(to.y - from.y) - step + 1,
{
    let dx = to.x - from.x;
    let dy = to.y - from.y;
    if dx == 0 && dy == 0 {
        assert(dist_sq(from, to) == 0) by (nonlinear_arith)
            requires
                to.x == from.x,
                to.y == from.y,
                dist_sq(from, to) == (to.x - from.x) * (to.x - from.x) + (to.y - from.y) * (to.y
                    - from.y),
        ;
        lemma_isqrt_square(0);
        assert(step == 0);
        assert(step_toward_spec(from, to, step) == from);
    } else {
        let ax = abs_val(dx);
        let ay = abs_val(dy);
        let d2 = dx * dx + dy * dy;
        assert((-dx) * (-dx) == dx * dx && (-dy) * (-dy) == dy * dy && 0 <= dx * dx && 0 <= dy
            * dy) by (nonlinear_arith);
        let l = isqrt(d2 as nat) as int;
        lemma_isqrt_bounds(d2 as nat);
        assert(d2 > 0) by {
            if dx != 0 {
                assert(dx * dx >= 1) by (nonlinear_arith)
                    requires
                        dx != 0,
                ;
            } else {
                assert(dy * dy >= 1) by (nonlinear_arith)
                    requires
                        dy != 0,
                ;
            }
        }
        if l == 0 {
            assert((l + 1) * (l + 1) == 1) by (nonlinear_arith)
                requires
                    l == 0,
            ;
        }
        assert(l >= 1);
        let mx = ax * step / l;
        let my = ay * step / l;
        // neither component of the offset passes its axis gap
        assert(ax <= l && ay <= l) by {
            lemma_isqrt_square(ax as nat);
            lemma_isqrt_square(ay as nat);
            lemma_isqrt_mono((ax * ax) as nat, d2 as nat);
            lemma_isqrt_mono((ay * ay) as nat, d2 as nat);
        }
        assert(ax * step <= ax * l && ay * step <= ay * l) by (nonlinear_arith)
            requires
                step <= l,
                0 <= ax,
                0 <= ay,
        ;
        vstd::arithmetic::div_mod::lemma_div_is_ordered(ax * step, ax * l, l);
        vstd::arithmetic::div_mod::lemma_div_is_ordered(ay * step, ay * l, l);
        assert(l * ax == ax * l && l * ay == ay * l) by (nonlinear_arith);
        vstd::arithmetic::div_mod::lemma_div_multiples_vanish(ax, l);
        vstd::arithmetic::div_mod::lemma_div_multiples_vanish(ay, l);
        assert(mx <= ax && my <= ay);
        vstd::arithmetic::div_mod::lemma_div_is_ordered(0, ax * step, l);
        vstd::arithmetic::div_mod::lemma_div_is_ordered(0, ay * step, l);
        assert(0 <= mx && 0 <= my);
        // the new point stays between `from` and `to` on each axis, so
        // the clamp is the identity and the gaps shrink by the offsets
        let n = step_toward_spec(from, to, step);
        assert(scaled_offset_x(dx, dy, step) == if dx < 0 {
            -mx
        } else {
            mx
        });
        assert(scaled_offset_y(dx, dy, step) == if dy < 0 {
            -my
        } else {
            my
        });
        assert(n.x == from.x + scaled_offset_x(dx, dy, step) && n.y == from.y + scaled_offset_y(
            dx,
            dy,
            step,
        ));
        assert(abs_val(to.x - n.x) == ax - mx && abs_val(to.y - n.y) == ay - my);
        // squared distance never grows
        assert((ax - mx) * (ax - mx) <= dx * dx && (ay - my) * (ay - my) <= dy * dy)
            by (nonlinear_arith)
            requires
                0 <= ax - mx <= ax,
                0 <= ay - my <= ay,
                ax * ax == dx * dx,
                ay * ay == dy * dy,
        ;
        assert(dist_sq(n, to) == (ax - mx) * (ax - mx) + (ay - my) * (ay - my))
            by (nonlinear_arith)
            requires
                abs_val(to.x - n.x) == ax - mx,
                abs_val(to.y - n.y) == ay - my,
                dist_sq(n, to) == (to.x - n.x) * (to.x - n.x) + (to.y - n.y) * (to.y - n.y),
        ;
        // the offsets together cover at least `step - 1`
        vstd::arithmetic::div_mod::lemma_fundamental_div_mod(ax * step, l);
        vstd::arithmetic::div_mod::lemma_mod_division_less_than_divisor(ax * step, l);
        vstd::arithmetic::div_mod::lemma_fundamental_div_mod(ay * step, l);
        vstd::arithmetic::div_mod::lemma_mod_division_less_than_divisor(ay * step, l);
        assert(l <= ax + ay) by {
            assert(d2 <= (ax + ay) * (ax + ay)) by (nonlinear_arith)
                requires
                    d2 == dx * dx + dy * dy,
                    ax * ax == dx * dx,
                    ay * ay == dy * dy,
                    0 <= ax,
                    0 <= ay,
            ;
            if ax + ay < l {
                assert((ax + ay) * (ax + ay) < l * l) by (nonlinear_arith)
                    requires
                        0 <= ax + ay < l,
                ;
            }
        }
        assert(l * step <= (ax + ay) * step) by (nonlinear_arith)
            requires
                l <= ax + ay,
                0 <= step,
        ;
        assert((ax + ay) * step == ax * step + ay * step) by (nonlinear_arith);
        assert(l * (mx + my) == l * mx + l * my) by (nonlinear_arith);
        assert(l * mx + l * my >= l * step - 2 * l + 2);
        assert(l * (step - 1) <= l * (mx + my)) by (nonlinear_arith)
            requires
                l * (mx + my) >= l * step - 2 * l + 2,
                l >= 1,
        ;
        assert(mx + my >= step - 1) by (nonlinear_arith)
            requires
                l * (step - 1) <= l * (mx + my),
                l >= 1,
        ;
    }
}

/// Squared distance in executable code.
pub fn dist_sq_exec(a: Vec2, b: Vec2) -> (r: u64)
    requires
        in_world(a),
        in_world(b),
    ensures
        r == dist_sq(a, b),
{
    let dx: i64 = b.x - a.x;
    let dy: i64 = b.y - a.y;
    assert(0 <= (dx as int) * (dx as int) <= 4_000_000_000_000_000_000 && 0 <= (dy as int) * (
    dy as int) <= 4_000_000_000_000_000_000) by (nonlinear_arith)
        requires
            -2_000_000_000 <= dx as int <= 2_000_000_000,
            -2_000_000_000 <= dy as int <= 2_000_000_000,
    ;
    (dx * dx + dy * dy) as u64
}

} // verus!
