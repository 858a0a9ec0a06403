//! Integer point arithmetic of the glyph coordinate space.
use vstd::prelude::*;

verus! {

/// Whether `v` is a value of `i16`.
pub open spec fn in_i16(v: int) -> bool {
    i16::MIN <= v <= i16::MAX
}

/// Integer division rounding toward zero, as Rust divides integers.
pub open spec fn trunc_div(a: int, b: int) -> int {
    let q = (if a >= 0 { a } else { -a }) / (if b >= 0 { b } else { -b });
    if (a >= 0) == (b >= 0) {
        q
    } else {
        -q
    }
}

/// `a - b`, coordinate by coordinate.
pub fn sub_points(a: (i16, i16), b: (i16, i16)) -> (res: (i16, i16))
    requires
        in_i16(a.0 - b.0),
        in_i16(a.1 - b.1),
    ensures
        res.0 == a.0 - b.0,
        res.1 == a.1 - b.1,
{
    (a.0 - b.0, a.1 - b.1)
}

/// `a + b`, coordinate by coordinate.
pub fn add_points(a: (i16, i16), b: (i16, i16)) -> (res: (i16, i16))
    requires
        in_i16(a.0 + b.0),
        in_i16(a.1 + b.1),
    ensures
        res.0 == a.0 + b.0,
        res.1 == a.1 + b.1,
{
    (a.0 + b.0, a.1 + b.1)
}

/// `a / scalar`, coordinate by coordinate, rounding toward zero.
pub fn divide_point(a: (i16, i16), scalar: i16) -> (res: (i16, i16))
    requires
        scalar != 0,
        !(scalar == -1 && (a.0 == i16::MIN || a.1 == i16::MIN)),
    ensures
        res.0 == trunc_div(a.0 as int, scalar as int),
        res.1 == trunc_div(a.1 as int, scalar as int),
{
    (divide_coordinate(a.0, scalar), divide_coordinate(a.1, scalar))
}

/// `a / b` rounded toward zero.
fn divide_coordinate(a: i16, b: i16) -> (res: i16)
    requires
        b != 0,
        !(b == -1 && a == i16::MIN),
    ensures
        res == trunc_div(a as int, b as int),
{
    let wa = a as i32;
    let wb = b as i32;
    let q = if wb > 0 {
        if wa >= 0 {
            wa / wb
        } else {
            -((-wa) / wb)
        }
    } else {
        if wa >= 0 {
            -(wa / (-wb))
        } else {
            (-wa) / (-wb)
        }
    };
    assert(-32768 <= q <= 32767) by (nonlinear_arith)
        requires
            q == trunc_div(wa as int, wb as int),
            -32768 <= wa <= 32767,
            -32768 <= wb <= 32767,
            wb != 0,
            !(wb == -1 && wa == -32768),
    ;
    q as i16
}

/// Adding back what was subtracted gives the point again.
pub proof fn law_add_undoes_sub(a: (i16, i16), b: (i16, i16))
    requires
        in_i16(a.0 - b.0),
        in_i16(a.1 - b.1),
    ensures
        ((a.0 - b.0) + b.0) == a.0,
        ((a.1 - b.1) + b.1) == a.1,
{
}

/// The integer square root of `n`: the largest `r` with `r * r <= n`.
pub open spec fn is_floor_sqrt(r: int, n: int) -> bool {
    0 <= r && r * r <= n < (r + 1) * (r + 1)
}

/// The squared Euclidean distance of two points.
pub open spec fn squared_distance(p0: (i16, i16), p1: (i16, i16)) -> int {
    (p0.0 - p1.0) * (p0.0 - p1.0) + (p0.1 - p1.1) * (p0.1 - p1.1)
}

/// The distance of two points rounded down, cut to 16 bits.
pub open spec fn spec_distance(p0: (i16, i16), p1: (i16, i16)) -> u16 {
    (choose|r: int| is_floor_sqrt(r, squared_distance(p0, p1))) as u16
}

/// There is one floor square root of each natural number.
proof fn lemma_floor_sqrt_unique(r: int, s: int, n: int)
    requires
        is_floor_sqrt(r, n),
        is_floor_sqrt(s, n),
    ensures
        r == s,
{
    if r < s {
        assert((r + 1) * (r + 1) <= s * s) by (nonlinear_arith)
            requires
                0 <= r,
                r + 1 <= s,
        ;
    } else if s < r {
        assert((s + 1) * (s + 1) <= r * r) by (nonlinear_arith)
            requires
                0 <= s,
                s + 1 <= r,
        ;
    }
}

/// The absolute difference of two `i16` values.
fn abs_diff(a: i16, b: i16) -> (res: u64)
    ensures
        res == (if a >= b { a - b } else { b - a }),
{
    if a >= b {
        (a as i32 - b as i32) as u64
    } else {
        (b as i32 - a as i32) as u64
    }
}

/// The floor square root of `n`.
fn floor_sqrt(n: u64) -> (res: u64)
    requires
        n < 0x4_0000_0000,
    ensures
        is_floor_sqrt(res as int, n as int),
{
    let mut r: u64 = 0;
    loop
        invariant
            r * r <= n,
            n < 0x4_0000_0000,
            r < 0x2_0000,
        ensures
            is_floor_sqrt(r as int, n as int),
        decreases n - r,
    {
        let next = r + 1;
        assert(next * next <= 0x4_0000_0000) by (nonlinear_arith)
            requires
                next <= 0x2_0000,
        ;
        let square = next * next;
        if square > n {
            break;
        }
        assert(next <= square) by (nonlinear_arith)
            requires
                1 <= next,
                square == next * next,
        ;
        assert(next < 0x2_0000) by (nonlinear_arith)
            requires
                next * next <= n,
                n < 0x4_0000_0000,
                0 <= next,
        ;
        r = next;
    }
    r
}

/// The Euclidean distance of two points, rounded down and cut to 16 bits.
pub fn distance(p0: (i16, i16), p1: (i16, i16)) -> (res: u16)
    ensures
        res == spec_distance(p0, p1),
{
    let dx = abs_diff(p0.0, p1.0);
    let dy = abs_diff(p0.1, p1.1);
    assert(dx * dx <= 0xFFFF * 0xFFFF) by (nonlinear_arith)
        requires
            dx <= 0xFFFF,
    ;
    assert(dy * dy <= 0xFFFF * 0xFFFF) by (nonlinear_arith)
        requires
            dy <= 0xFFFF,
    ;
    let n = dx * dx + dy * dy;
    assert(n == squared_distance(p0, p1)) by (nonlinear_arith)
        requires
            dx == (if p0.0 >= p1.0 { p0.0 - p1.0 } else { p1.0 - p0.0 }),
            dy == (if p0.1 >= p1.1 { p0.1 - p1.1 } else { p1.1 - p0.1 }),
            n == dx * dx + dy * dy,
    ;
    let r = floor_sqrt(n);
    proof {
        let c = choose|c: int| is_floor_sqrt(c, squared_distance(p0, p1));
        lemma_floor_sqrt_unique(r as int, c, n as int);
    }
    r as u16
}

/// The distance does not depend on the order of the two points.
pub proof fn law_distance_symmetric(p0: (i16, i16), p1: (i16, i16))
    ensures
        spec_distance(p0, p1) == spec_distance(p1, p0),
{
    assert(squared_distance(p0, p1) == squared_distance(p1, p0)) by (nonlinear_arith);
}

} // verus!
