//! Laws of enlarging: twice as many samples in each direction, blended from their
//! neighbours.

use crate::deblock;
use crate::deblock::LineFilter;
use crate::rru_filter;
use crate::rru_filter::{RruEdgeCondition, RruFilterMode};
use crate::upsample;
use vstd::prelude::*;

verus! {

/// Along a line the ends are copied; between two samples `a` and `b` stand two positions,
/// three parts of the nearer sample and one of the other, rounded to the nearest.
pub proof fn lines_are_filled_in_quarters(s: spec_fn(int) -> int, n: int, i: int)
    requires
        forall|j: int| 0 <= j < n ==> 0 <= #[trigger] s(j),
        0 <= i,
        i + 1 < n,
    ensures
        upsample::line_position(s, n, 0) == s(0),
        upsample::line_position(s, n, 2 * n - 1) == s(n - 1),
        -1 <= 4 * upsample::line_position(s, n, 2 * i + 1) - (3 * s(i) + s(i + 1)) <= 2,
        -1 <= 4 * upsample::line_position(s, n, 2 * i + 2) - (s(i) + 3 * s(i + 1)) <= 2,
{
    assert(s(i) >= 0 && s(i + 1) >= 0);
}

/// Inside a grid the four positions between four samples have nine parts of the nearest
/// sample, three of each one beside it and one of the one across, rounded to the nearest.
pub proof fn grids_are_filled_in_sixteenths(
    s: spec_fn(int, int) -> int,
    width: int,
    height: int,
    i: int,
    j: int,
)
    requires
        forall|y: int, x: int| 0 <= y < height && 0 <= x < width ==> 0 <= #[trigger] s(y, x),
        0 <= i,
        i + 1 < height,
        0 <= j,
        j + 1 < width,
    ensures
        ({
            let at = |y: int, x: int| upsample::grid_position(s, width, height, y, x);
            let (a, b, c, d) = (s(i, j), s(i, j + 1), s(i + 1, j), s(i + 1, j + 1));
            let (y, x) = (2 * i + 1, 2 * j + 1);
            &&& -7 <= 16 * at(y, x) - (9 * a + 3 * b + 3 * c + d) <= 8
            &&& -7 <= 16 * at(y, x + 1) - (3 * a + 9 * b + c + 3 * d) <= 8
            &&& -7 <= 16 * at(y + 1, x) - (3 * a + b + 9 * c + 3 * d) <= 8
            &&& -7 <= 16 * at(y + 1, x + 1) - (a + 3 * b + 3 * c + 9 * d) <= 8
        }),
{
    assert(s(i, j) >= 0 && s(i, j + 1) >= 0 && s(i + 1, j) >= 0 && s(i + 1, j + 1) >= 0);
}

/// The outer rows and columns of a grid are filled as lines.
pub proof fn borders_are_filled_as_lines(
    s: spec_fn(int, int) -> int,
    width: int,
    height: int,
    y: int,
    x: int,
)
    requires
        0 <= y < 2 * height,
        0 <= x < 2 * width,
    ensures
        upsample::grid_position(s, width, height, 0, x) == upsample::line_position(
            |j: int| s(0, j),
            width,
            x,
        ),
        upsample::grid_position(s, width, height, 2 * height - 1, x) == upsample::line_position(
            |j: int| s(height - 1, j),
            width,
            x,
        ),
        upsample::grid_position(s, width, height, y, 0) == upsample::line_position(
            |i: int| s(i, 0),
            height,
            y,
        ),
        upsample::grid_position(s, width, height, y, 2 * width - 1) == upsample::line_position(
            |i: int| s(i, width - 1),
            height,
            y,
        ),
{
}

/// Transposing or mirroring the samples transposes or mirrors the enlarged samples.
pub proof fn enlarging_is_symmetric(
    s: spec_fn(int, int) -> int,
    width: int,
    height: int,
    y: int,
    x: int,
)
    requires
        0 <= y < 2 * height,
        0 <= x < 2 * width,
    ensures
        upsample::grid_position(|i: int, j: int| s(j, i), height, width, x, y)
            == upsample::grid_position(s, width, height, y, x),
        upsample::grid_position(|i: int, j: int| s(i, width - 1 - j), width, height, y, x)
            == upsample::grid_position(s, width, height, y, 2 * width - 1 - x),
        upsample::grid_position(|i: int, j: int| s(height - 1 - i, j), width, height, y, x)
            == upsample::grid_position(s, width, height, 2 * height - 1 - y, x),
{
}

/// Quotients are cut off towards zero: a number and its opposite have opposite quotients,
/// and what is cut off has the number's sign.
pub proof fn quotients_are_cut_off_towards_zero(n: int, d: int)
    requires
        d > 0,
    ensures
        upsample::truncated(-n, d) == -upsample::truncated(n, d),
        n >= 0 ==> 0 <= n - d * upsample::truncated(n, d) < d,
        n <= 0 ==> -d < n - d * upsample::truncated(n, d) <= 0,
{
    vstd::arithmetic::div_mod::lemma_fundamental_div_mod(n, d);
    vstd::arithmetic::div_mod::lemma_fundamental_div_mod(-n, d);
    assert(d * (-((-n) / d)) == -(d * ((-n) / d))) by (nonlinear_arith);
    assert(d * (-(n / d)) == -(d * (n / d))) by (nonlinear_arith);
    if n == 0 {
        assert(0int / d == 0) by (nonlinear_arith)
            requires
                d > 0,
        ;
    }
}

/// At the edges of enlarged blocks nothing is filtered that was not coded; what was is
/// blended, or smoothed without a limit where the deblocking filter is on.
pub proof fn enlarged_edges_follow_the_mode(mode: RruFilterMode, c: RruEdgeCondition)
    ensures
        rru_filter::rru_filter_of(mode, c) == LineFilter::Leave <==> c == RruEdgeCondition::Skip,
        rru_filter::rru_filter_of(mode, c) == LineFilter::Blend <==> c == RruEdgeCondition::Filter
            && mode == RruFilterMode::Default,
        rru_filter::rru_filter_of(mode, c) matches LineFilter::Ramp { strength } ==> mode
            == RruFilterMode::Deblocking && strength == deblock::STRENGTH_RRU_INFINITE,
{
}

} // verus!
