//! Fixed-point plane geometry: squared distances and integer square roots.
use vstd::prelude::*;

verus! {

/// Number of fixed-point steps in one world unit.
pub const SCALE: i64 = 1000;

/// Bound on the absolute value of every coordinate handed to the distance
/// functions; squared distances between such points fit in a `u64`.
pub const COORD_MAX: i64 = 1_000_000_000;

/// Whether `v` lies within `[-COORD_MAX, COORD_MAX]`.
pub open spec fn in_plane(v: int) -> bool {
    -COORD_MAX <= v <= COORD_MAX
}

/// The squared Euclidean distance between two points.
pub open spec fn dist2(x0: int, y0: int, x1: int, y1: int) -> int {
    (x1 - x0) * (x1 - x0) + (y1 - y0) * (y1 - y0)
}

/// `r` is the square root of `n`, rounded down.
pub open spec fn is_floor_sqrt(n: int, r: int) -> bool {
    0 <= r && r * r <= n && n < (r + 1) * (r + 1)
}

/// The square root of `n`, rounded down.
pub open spec fn floor_sqrt(n: int) -> int {
    choose|r: int| is_floor_sqrt(n, r)
}

/// The floor square root is unique.
pub proof fn lemma_floor_sqrt_unique(n: int, r: int, s: int)
    requires
        is_floor_sqrt(n, r),
        is_floor_sqrt(n, s),
    ensures
        r == s,
{
    if r < s {
        assert((r + 1) * (r + 1) <= s * s) by (nonlinear_arith)
            requires 0 <= r, r + 1 <= s;
    } else if s < r {
        assert((s + 1) * (s + 1) <= r * r) by (nonlinear_arith)
            requires 0 <= s, s + 1 <= r;
    }
}

/// Any root that meets the definition is the one that `floor_sqrt` picks.
pub proof fn lemma_floor_sqrt_is(n: int, r: int)
    requires
        is_floor_sqrt(n, r),
    ensures
        floor_sqrt(n) == r,
{
    lemma_floor_sqrt_unique(n, r, floor_sqrt(n));
}

/// Relies on num::integer::sqrt: the truncated square root of an unsigned
/// integer, which satisfies `r² ≤ n < (r+1)²` and never panics.
#[verifier::external_body]
fn truncated_sqrt(n: u64) -> (r: u64)
    ensures
        is_floor_sqrt(n as int, r as int),
{
    num::integer::sqrt(n)
}

/// The squared distance between two points of the plane.
pub fn distance_squared(x0: i64, y0: i64, x1: i64, y1: i64) -> (r: u64)
    requires
        in_plane(x0 as int),
        in_plane(y0 as int),
        in_plane(x1 as int),
        in_plane(y1 as int),
    ensures
        r as int == dist2(x0 as int, y0 as int, x1 as int, y1 as int),
{
    let dx: i64 = x1 - x0;
    let dy: i64 = y1 - y0;
    let ax: u64 = if dx >= 0 { dx as u64 } else { (-dx) as u64 };
    let ay: u64 = if dy >= 0 { dy as u64 } else { (-dy) as u64 };
    assert(ax * ax <= 4_000_000_000_000_000_000) by (nonlinear_arith)
        requires ax <= 2_000_000_000;
    assert(ay * ay <= 4_000_000_000_000_000_000) by (nonlinear_arith)
        requires ay <= 2_000_000_000;
    assert(ax * ax == dx * dx) by (nonlinear_arith)
        requires ax == dx || ax == -dx;
    assert(ay * ay == dy * dy) by (nonlinear_arith)
        requires ay == dy || ay == -dy;
    ax * ax + ay * ay
}

/// The distance between two points, rounded down to a whole fixed-point step.
pub fn distance_in_2d(x0: i64, y0: i64, x1: i64, y1: i64) -> (r: u64)
    requires
        in_plane(x0 as int),
        in_plane(y0 as int),
        in_plane(x1 as int),
        in_plane(y1 as int),
    ensures
        r as int == floor_sqrt(dist2(x0 as int, y0 as int, x1 as int, y1 as int)),
        is_floor_sqrt(dist2(x0 as int, y0 as int, x1 as int, y1 as int), r as int),
{
    let d2 = distance_squared(x0, y0, x1, y1);
    let r = truncated_sqrt(d2);
    proof {
        lemma_floor_sqrt_is(d2 as int, r as int);
    }
    r
}

/// `a / d` rounded toward zero, as Rust's integer division does.
pub open spec fn div_trunc(a: int, d: int) -> int {
    if a >= 0 {
        a / d
    } else {
        -((-a) / d)
    }
}

/// Divides rounding toward zero.
pub fn divide_toward_zero(a: i64, d: i64) -> (r: i64)
    requires
        d > 0,
        a > i64::MIN,
    ensures
        r as int == div_trunc(a as int, d as int),
{
    if a >= 0 {
        a / d
    } else {
        -((-a) / d)
    }
}

/// The floor square root of a squared distance in the plane is below
/// `3_000_000_000`.
pub proof fn lemma_sqrt_bound(n: int, r: int)
    requires
        is_floor_sqrt(n, r),
        n <= 8_000_000_000_000_000_000,
    ensures
        r <= 3_000_000_000,
{
    if r > 3_000_000_000 {
        assert(r * r > 9_000_000_000_000_000_000) by (nonlinear_arith)
            requires r > 3_000_000_000;
    }
}

} // verus!
