//! Integer plane geometry.
//!
//! Positions are lattice points whose coordinates count thousandths of a world
//! unit. Durations are whole milliseconds and speeds are whole world units per
//! second, so the length covered in one tick is simply `speed * milliseconds`,
//! again in thousandths of a unit. Euclidean lengths are compared through their
//! squares, and where a length itself is needed it is the integer square root.

use crate::map::Coordinate;
use vstd::prelude::*;

verus! {

/// Thousandths of a world unit in one world unit.
pub const UNIT: i32 = 1000;

/// Whether `r` is the integer square root of `n`: the largest natural number
/// whose square does not exceed `n`.
pub open spec fn is_isqrt(n: int, r: int) -> bool {
    0 <= r && r * r <= n && n < (r + 1) * (r + 1)
}

/// The integer square root of `n`, by counting up from zero: the root of `n`
/// is that of `n - 1`, plus one when `n` is a perfect square.
pub open spec fn isqrt(n: nat) -> nat
    decreases n,
{
    if n == 0 {
        0
    } else {
        let r = isqrt((n - 1) as nat);
        if (r + 1) * (r + 1) <= n {
            r + 1
        } else {
            r
        }
    }
}

/// `isqrt(n)` is the integer square root of `n`.
pub proof fn lemma_isqrt_is_root(n: nat)
    ensures
        is_isqrt(n as int, isqrt(n) as int),
    decreases n,
{
    if n > 0 {
        lemma_isqrt_is_root((n - 1) as nat);
        let r = isqrt((n - 1) as nat) as int;
        assert((r + 1) * (r + 1) < (r + 2) * (r + 2)) by (nonlinear_arith)
            requires
                0 <= r,
        ;
    }
}

/// A number has only one integer square root.
pub proof fn lemma_isqrt_unique(n: int, r1: int, r2: int)
    requires
        is_isqrt(n, r1),
        is_isqrt(n, r2),
    ensures
        r1 == r2,
{
    assert(r1 == r2) by (nonlinear_arith)
        requires
            0 <= r1,
            0 <= r2,
            r1 * r1 <= n,
            n < (r1 + 1) * (r1 + 1),
            r2 * r2 <= n,
            n < (r2 + 1) * (r2 + 1),
    ;
}

/// Any root of `n` in the sense of [`is_isqrt`] is `isqrt(n)`.
pub proof fn lemma_isqrt_of_root(n: nat, r: int)
    requires
        is_isqrt(n as int, r),
    ensures
        r == isqrt(n),
{
    lemma_isqrt_is_root(n);
    lemma_isqrt_unique(n as int, r, isqrt(n) as int);
}

/// Computes the integer square root by bisection.
pub fn integer_sqrt(n: u128) -> (r: u64)
    ensures
        r == isqrt(n as nat),
{
    let mut lo: u128 = 0;
    let mut hi: u128 = 0x1_0000_0000_0000_0000;
    assert(hi * hi > n) by (nonlinear_arith)
        requires
            hi == 0x1_0000_0000_0000_0000,
            n <= u128::MAX,
    ;
    while hi - lo > 1
        invariant
            lo < hi <= 0x1_0000_0000_0000_0000,
            lo * lo <= n,
            n < hi * hi,
        decreases hi - lo,
    {
        let mid: u128 = lo + (hi - lo) / 2;
        assert(mid * mid <= u128::MAX) by (nonlinear_arith)
            requires
                mid < 0x1_0000_0000_0000_0000,
        ;
        if mid * mid <= n {
            lo = mid;
        } else {
            hi = mid;
        }
    }
    proof {
        lemma_isqrt_of_root(n as nat, lo as int);
    }
    lo as u64
}

/// The number nearest to `v` that `i32` holds.
pub open spec fn clamp_i32(v: int) -> i32 {
    if v < i32::MIN {
        i32::MIN
    } else if v > i32::MAX {
        i32::MAX
    } else {
        v as i32
    }
}

/// Brings a number into the range of `i32`.
pub fn clamp_to_i32(v: i64) -> (c: i32)
    ensures
        c == clamp_i32(v as int),
{
    if v < i32::MIN as i64 {
        i32::MIN
    } else if v > i32::MAX as i64 {
        i32::MAX
    } else {
        v as i32
    }
}

/// The point `(dx, dy)` away from `p`, kept on the part of the plane that the
/// coordinates can name.
pub open spec fn offset(p: Coordinate, dx: int, dy: int) -> Coordinate {
    Coordinate { x: clamp_i32(p.x + dx), y: clamp_i32(p.y + dy) }
}

/// Computes [`offset`].
pub fn offset_by(p: Coordinate, dx: i32, dy: i32) -> (q: Coordinate)
    ensures
        q == offset(p, dx as int, dy as int),
{
    Coordinate {
        x: clamp_to_i32(p.x as i64 + dx as i64),
        y: clamp_to_i32(p.y as i64 + dy as i64),
    }
}

/// Whether `a` and `b` are no more than `radius` apart.
pub open spec fn within(a: Coordinate, b: Coordinate, radius: nat) -> bool {
    dist_sq(a, b) <= radius * radius
}

/// Whether `a` and `b` are less than `radius` apart.
pub open spec fn inside(a: Coordinate, b: Coordinate, radius: nat) -> bool {
    dist_sq(a, b) < radius * radius
}

/// The absolute value of an integer.
pub open spec fn abs(v: int) -> nat {
    if v < 0 {
        (-v) as nat
    } else {
        v as nat
    }
}

/// The square of the Euclidean distance between two points.
pub open spec fn dist_sq(a: Coordinate, b: Coordinate) -> nat {
    ((b.x - a.x) * (b.x - a.x) + (b.y - a.y) * (b.y - a.y)) as nat
}

/// Whether a walk of length `step` starting at `from` gets as far as `to`.
pub open spec fn reaches(from: Coordinate, to: Coordinate, step: nat) -> bool {
    dist_sq(from, to) <= step * step
}

/// One coordinate of a partial move: `from` shifted towards `to` by the
/// fraction `step / len` of their difference, rounded towards `from`.
pub open spec fn shift(from: int, to: int, step: nat, len: nat) -> int {
    if to < from {
        from - ((abs(to - from) * step) / len) as int
    } else {
        from + ((abs(to - from) * step) / len) as int
    }
}

/// Where a walk of length `step` from `from` straight towards `to` ends: at
/// `to` when the walk reaches it, and otherwise at the lattice point short of
/// it whose offsets are the fraction `step / distance` of the full offsets.
pub open spec fn step_toward(from: Coordinate, to: Coordinate, step: nat) -> Coordinate {
    if reaches(from, to, step) {
        to
    } else {
        let len = isqrt(dist_sq(from, to));
        Coordinate {
            x: shift(from.x as int, to.x as int, step, len) as i32,
            y: shift(from.y as int, to.y as int, step, len) as i32,
        }
    }
}

/// A shifted coordinate lies between its two ends.
pub proof fn lemma_shift_between(from: int, to: int, step: nat, len: nat)
    requires
        step <= len,
        0 < len,
    ensures
        from <= to ==> from <= shift(from, to, step, len) <= to,
        to <= from ==> to <= shift(from, to, step, len) <= from,
{
    let d = abs(to - from);
    assert((d * step) / len <= d) by (nonlinear_arith)
        requires
            step <= len,
            0 < len,
    ;
    assert(0 <= (d * step) / len) by (nonlinear_arith)
        requires
            0 < len,
    ;
}

/// A walk that falls short of its goal is shorter than the integer root of
/// the squared distance, and that root is positive.
pub proof fn lemma_short_step(d2: nat, step: nat)
    requires
        step * step < d2,
    ensures
        step <= isqrt(d2),
        0 < isqrt(d2),
{
    lemma_isqrt_is_root(d2);
    let len = isqrt(d2) as int;
    assert(step <= len) by (nonlinear_arith)
        requires
            0 <= len,
            step * step < d2,
            d2 < (len + 1) * (len + 1),
    ;
    assert(0 < len) by (nonlinear_arith)
        requires
            0 <= len,
            0 <= step * step < d2,
            d2 < (len + 1) * (len + 1),
    ;
}

/// A walk towards a point never ends farther from it than it began.
pub proof fn lemma_step_toward_approaches(from: Coordinate, to: Coordinate, step: nat)
    ensures
        dist_sq(step_toward(from, to, step), to) <= dist_sq(from, to),
{
    if !reaches(from, to, step) {
        let d2 = dist_sq(from, to);
        let len = isqrt(d2);
        lemma_short_step(d2, step);
        lemma_shift_between(from.x as int, to.x as int, step, len);
        lemma_shift_between(from.y as int, to.y as int, step, len);
        let p = step_toward(from, to, step);
        let (ax, bx) = (to.x - p.x, to.x - from.x);
        let (ay, by) = (to.y - p.y, to.y - from.y);
        assert(0 <= ax * ax <= bx * bx) by (nonlinear_arith)
            requires
                (0 <= ax <= bx) || (bx <= ax <= 0),
        ;
        assert(0 <= ay * ay <= by * by) by (nonlinear_arith)
            requires
                (0 <= ay <= by) || (by <= ay <= 0),
        ;
    } else {
        assert((to.y - to.y) * (to.y - to.y) == 0);
        assert(0 <= (to.x - from.x) * (to.x - from.x)) by (nonlinear_arith);
        assert(0 <= (to.y - from.y) * (to.y - from.y)) by (nonlinear_arith);
    }
}

/// The square of the Euclidean distance between two points.
pub fn distance_squared(a: Coordinate, b: Coordinate) -> (d: u128)
    ensures
        d == dist_sq(a, b),
        d < 0x2_0000_0000_0000_0000,
{
    let dx: i64 = b.x as i64 - a.x as i64;
    let dy: i64 = b.y as i64 - a.y as i64;
    assert(0 <= dx * dx < 0x1_0000_0000_0000_0000) by (nonlinear_arith)
        requires
            -0x1_0000_0000 < dx < 0x1_0000_0000,
    ;
    assert(0 <= dy * dy < 0x1_0000_0000_0000_0000) by (nonlinear_arith)
        requires
            -0x1_0000_0000 < dy < 0x1_0000_0000,
    ;
    let sx: i128 = dx as i128 * dx as i128;
    let sy: i128 = dy as i128 * dy as i128;
    (sx + sy) as u128
}

/// Whether a walk of length `step` from `from` gets as far as `to`.
pub fn walk_reaches(from: Coordinate, to: Coordinate, step: u64) -> (b: bool)
    ensures
        b == reaches(from, to, step as nat),
{
    let d2 = distance_squared(from, to);
    if step >= 0x2_0000_0000 {
        assert(step * step >= 0x2_0000_0000_0000_0000) by (nonlinear_arith)
            requires
                step >= 0x2_0000_0000,
        ;
        true
    } else {
        assert(step * step < 0x4_0000_0000_0000_0000) by (nonlinear_arith)
            requires
                step < 0x2_0000_0000,
        ;
        d2 <= step as u128 * step as u128
    }
}

/// Whether a walk of length `step` from `from` would carry past `to`.
pub open spec fn overshoots(from: Coordinate, to: Coordinate, step: nat) -> bool {
    dist_sq(from, to) < step * step
}

/// Whether a walk of length `step` from `from` would carry past `to`.
pub fn walk_overshoots(from: Coordinate, to: Coordinate, step: u64) -> (b: bool)
    ensures
        b == overshoots(from, to, step as nat),
{
    let d2 = distance_squared(from, to);
    if step >= 0x2_0000_0000 {
        assert(step * step >= 0x2_0000_0000_0000_0000) by (nonlinear_arith)
            requires
                step >= 0x2_0000_0000,
        ;
        true
    } else {
        assert(step * step < 0x4_0000_0000_0000_0000) by (nonlinear_arith)
            requires
                step < 0x2_0000_0000,
        ;
        d2 < step as u128 * step as u128
    }
}

/// Whether `a` and `b` are no more than `radius` apart.
pub fn is_within(a: Coordinate, b: Coordinate, radius: u32) -> (r: bool)
    ensures
        r == within(a, b, radius as nat),
{
    assert(0 <= radius * radius <= u64::MAX) by (nonlinear_arith)
        requires
            0 <= radius <= u32::MAX,
    ;
    distance_squared(a, b) <= (radius as u64 * radius as u64) as u128
}

/// Whether `a` and `b` are less than `radius` apart.
pub fn is_inside(a: Coordinate, b: Coordinate, radius: u32) -> (r: bool)
    ensures
        r == inside(a, b, radius as nat),
{
    assert(0 <= radius * radius <= u64::MAX) by (nonlinear_arith)
        requires
            0 <= radius <= u32::MAX,
    ;
    distance_squared(a, b) < (radius as u64 * radius as u64) as u128
}

/// The length of the straight line between two points, rounded down.
pub fn distance(a: Coordinate, b: Coordinate) -> (len: u64)
    ensures
        len == isqrt(dist_sq(a, b)),
{
    integer_sqrt(distance_squared(a, b))
}

/// One coordinate of a partial move.
fn shift_coordinate(from: i32, to: i32, step: u64, len: u64) -> (r: i32)
    requires
        step <= len,
        0 < len,
    ensures
        r == shift(from as int, to as int, step as nat, len as nat),
{
    proof {
        lemma_shift_between(from as int, to as int, step as nat, len as nat);
    }
    let d: i64 = to as i64 - from as i64;
    let magnitude: u64 = if d < 0 {
        (-d) as u64
    } else {
        d as u64
    };
    assert(magnitude * step <= u128::MAX) by (nonlinear_arith)
        requires
            magnitude <= 0x1_0000_0000,
            step <= u64::MAX,
    ;
    let moved: u128 = (magnitude as u128 * step as u128) / (len as u128);
    if d < 0 {
        (from as i64 - moved as i64) as i32
    } else {
        (from as i64 + moved as i64) as i32
    }
}

/// Walks `step` from `from` straight towards `to`.
pub fn walk_toward(from: Coordinate, to: Coordinate, step: u64) -> (p: Coordinate)
    ensures
        p == step_toward(from, to, step as nat),
{
    if walk_reaches(from, to, step) {
        to
    } else {
        let d2 = distance_squared(from, to);
        let len = integer_sqrt(d2);
        proof {
            lemma_short_step(d2 as nat, step as nat);
        }
        Coordinate {
            x: shift_coordinate(from.x, to.x, step, len),
            y: shift_coordinate(from.y, to.y, step, len),
        }
    }
}

} // verus!
