//! Doubling a sample grid by interpolation.
//!
//! Each sample sits at the centre of two output positions per axis. Output
//! position `k` is nearest to sample `k / 2` and lies between it and the sample
//! before or behind it, at weights of 3 to 1. Positions outside the outermost
//! samples copy them. Division is by truncation.

use vstd::prelude::*;

verus! {

/// The quotient cut off towards zero.
pub open spec fn truncated(n: int, d: int) -> int {
    if n >= 0 {
        n / d
    } else {
        -((-n) / d)
    }
}

/// The sample that is second nearest to output position `k` along an axis.
pub open spec fn far(k: int) -> int {
    if k % 2 == 1 {
        k / 2 + 1
    } else {
        k / 2 - 1
    }
}

/// Output position `k` lies outside the outermost of `n` samples.
pub open spec fn outermost(k: int, n: int) -> bool {
    k == 0 || k == 2 * n - 1
}

/// Interpolation along one axis.
pub open spec fn between_two(near: int, far: int) -> int {
    truncated(3 * near + far + 2, 4)
}

/// Interpolation along both axes: the nearest sample, its two neighbours and
/// the sample across.
pub open spec fn between_four(near: int, side: int, other_side: int, across: int) -> int {
    truncated(9 * near + 3 * side + 3 * other_side + across + 8, 16)
}

/// Output position `k` of a line of `n` samples.
pub open spec fn line_position(s: spec_fn(int) -> int, n: int, k: int) -> int {
    if outermost(k, n) {
        s(k / 2)
    } else {
        between_two(s(k / 2), s(far(k)))
    }
}

/// Output position (`y`, `x`) of a grid of `height` rows of `width` samples;
/// `s` takes a row and a column.
pub open spec fn grid_position(
    s: spec_fn(int, int) -> int,
    width: int,
    height: int,
    y: int,
    x: int,
) -> int {
    if outermost(y, height) && outermost(x, width) {
        s(y / 2, x / 2)
    } else if outermost(y, height) {
        between_two(s(y / 2, x / 2), s(y / 2, far(x)))
    } else if outermost(x, width) {
        between_two(s(y / 2, x / 2), s(far(y), x / 2))
    } else {
        between_four(s(y / 2, x / 2), s(y / 2, far(x)), s(far(y), x / 2), s(far(y), far(x)))
    }
}

/// A quotient cut off towards zero.
fn divided(n: i32, d: u32) -> (q: i32)
    requires
        d > 0,
        n > i32::MIN,
    ensures
        q == truncated(n as int, d as int),
{
    if n >= 0 {
        let m: u32 = n as u32;
        proof {
            vstd::arithmetic::div_mod::lemma_div_nonincreasing(n as int, d as int);
        }
        (m / d) as i32
    } else {
        let m: u32 = (-n) as u32;
        proof {
            vstd::arithmetic::div_mod::lemma_div_nonincreasing(-n as int, d as int);
        }
        -((m / d) as i32)
    }
}

/// Interpolate along one axis.
pub fn interpolate_two(near: i32, far: i32) -> (v: i32)
    requires
        -0x8000 <= near <= 0x7fff,
        -0x8000 <= far <= 0x7fff,
    ensures
        v == between_two(near as int, far as int),
        -0x8000 <= v <= 0x7fff,
        0 <= near <= 255 && 0 <= far <= 255 ==> 0 <= v <= 255,
{
    divided(3 * near + far + 2, 4)
}

/// Interpolate along both axes.
pub fn interpolate_four(near: i32, side: i32, other_side: i32, across: i32) -> (v: i32)
    requires
        -0x8000 <= near <= 0x7fff,
        -0x8000 <= side <= 0x7fff,
        -0x8000 <= other_side <= 0x7fff,
        -0x8000 <= across <= 0x7fff,
    ensures
        v == between_four(near as int, side as int, other_side as int, across as int),
        -0x8000 <= v <= 0x7fff,
        0 <= near <= 255 && 0 <= side <= 255 && 0 <= other_side <= 255 && 0 <= across <= 255
            ==> 0 <= v <= 255,
{
    divided(9 * near + 3 * side + 3 * other_side + across + 8, 16)
}

/// The sample that is second nearest to output position `k`, which is not
/// outermost.
pub fn far_index(k: usize, n: usize) -> (i: usize)
    requires
        0 < k < 2 * n - 1,
    ensures
        i == far(k as int),
        i < n,
{
    if k % 2 == 1 {
        k / 2 + 1
    } else {
        k / 2 - 1
    }
}

/// Interpolation between samples that are not negative never leaves their
/// range; equal samples are kept.
pub proof fn interpolation_stays_in_range(
    s: spec_fn(int, int) -> int,
    width: int,
    height: int,
    low: int,
    high: int,
    y: int,
    x: int,
)
    requires
        0 <= low,
        forall|i: int, j: int|
            0 <= i < height && 0 <= j < width ==> low <= #[trigger] s(i, j) <= high,
        0 <= y < 2 * height,
        0 <= x < 2 * width,
    ensures
        low <= grid_position(s, width, height, y, x) <= high,
{
    let near = s(y / 2, x / 2);
    if !outermost(x, width) {
        let side = s(y / 2, far(x));
        assert(low <= side <= high);
    }
    if !outermost(y, height) {
        let other = s(far(y), x / 2);
        assert(low <= other <= high);
        if !outermost(x, width) {
            let across = s(far(y), far(x));
            assert(low <= across <= high);
        }
    }
}

/// Interpolation along one axis between samples that are not negative never
/// leaves their range; equal samples are kept.
pub proof fn line_interpolation_stays_in_range(
    s: spec_fn(int) -> int,
    n: int,
    low: int,
    high: int,
    k: int,
)
    requires
        0 <= low,
        forall|i: int| 0 <= i < n ==> low <= #[trigger] s(i) <= high,
        0 <= k < 2 * n,
    ensures
        low <= line_position(s, n, k) <= high,
{
    let near = s(k / 2);
    if !outermost(k, n) {
        let other = s(far(k));
        assert(low <= other <= high);
    }
}

/// Equal negative samples are kept at the corners only: everywhere else cutting
/// off towards zero moves them up by one.
pub proof fn negative_samples_move_towards_zero(
    s: spec_fn(int, int) -> int,
    width: int,
    height: int,
    v: int,
    y: int,
    x: int,
)
    requires
        v < 0,
        forall|i: int, j: int| 0 <= i < height && 0 <= j < width ==> #[trigger] s(i, j) == v,
        0 <= y < 2 * height,
        0 <= x < 2 * width,
    ensures
        grid_position(s, width, height, y, x) == if outermost(y, height) && outermost(x, width) {
            v
        } else {
            v + 1
        },
{
    let near = s(y / 2, x / 2);
    if !outermost(x, width) {
        assert(s(y / 2, far(x)) == v);
    }
    if !outermost(y, height) {
        assert(s(far(y), x / 2) == v);
        if !outermost(x, width) {
            assert(s(far(y), far(x)) == v);
        }
    }
    assert(truncated(4 * v + 2, 4) == v + 1);
    assert(truncated(16 * v + 8, 16) == v + 1);
}

/// Interpolation between samples that are not negative and rise along a line
/// gives values that rise along it.
pub proof fn interpolation_keeps_a_ramp(s: spec_fn(int) -> int, n: int, k: int)
    requires
        1 <= n,
        forall|i: int| 0 <= i < n ==> 0 <= #[trigger] s(i),
        forall|i: int, j: int| 0 <= i <= j < n ==> #[trigger] s(i) <= #[trigger] s(j),
        0 <= k,
        k + 1 < 2 * n,
    ensures
        line_position(s, n, k) <= line_position(s, n, k + 1),
{
    let a = s(k / 2);
    let b = s((k + 1) / 2);
    if !outermost(k, n) {
        let f = s(far(k));
        assert(a <= b);
    }
    if !outermost(k + 1, n) {
        let g = s(far(k + 1));
        assert(a <= b);
    }
}

} // verus!
