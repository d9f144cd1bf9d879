//! Laws of smoothing block edges.

use crate::deblock;
use crate::deblock::{LineFilter, Pass};
use crate::picture::deblocking;
use crate::picture::frame;
use crate::picture::grid;
use crate::upsample;
use vstd::prelude::*;

verus! {

/// The pass over the horizontal edges of a plane of blocks of eight.
pub open spec fn across_rows(width: int, height: int) -> Pass {
    Pass { stride: width, upright: false, across: height, along: width, dim: 8 }
}

/// The pass over its vertical edges.
pub open spec fn across_columns(width: int, height: int) -> Pass {
    Pass { stride: width, upright: true, across: width, along: height, dim: 8 }
}

/// The vertical edge between two blocks beside each other is smoothed as soon as
/// one of their macroblocks was coded, whichever of the two it is, by the
/// quantiser of the right one's; between two skipped macroblocks it is left.
pub proof fn one_coded_macroblock_is_enough_beside(
    g: Seq<grid::Entry>,
    quants: Seq<u8>,
    cols: int,
    per: int,
    width: int,
    height: int,
    bx: int,
    by: int,
)
    requires
        per == 1 || per == 2,
        0 <= bx < width / 8 - 1,
        0 <= by < height / 8,
    ensures
        ({
            let how = deblocking::edge_filters(across_columns(width, height), g, quants, cols, per);
            let left = (by / per) * cols + bx / per;
            let right = (by / per) * cols + (bx + 1) / per;
            let strength = deblock::strength_of(quants[right] as int) as i32;
            &&& how.dom().contains((by, bx))
            &&& !g[left].not_coded ==> how[(by, bx)] == LineFilter::Ramp { strength }
            &&& !g[right].not_coded ==> how[(by, bx)] == LineFilter::Ramp { strength }
            &&& g[left].not_coded && g[right].not_coded ==> how[(by, bx)] == LineFilter::Leave
        }),
{
}

/// The horizontal edge between two blocks above each other is smoothed as soon as
/// one of their macroblocks was coded, whichever of the two it is, by the
/// quantiser of the lower one's; between two skipped macroblocks it is left.
pub proof fn one_coded_macroblock_is_enough_below(
    g: Seq<grid::Entry>,
    quants: Seq<u8>,
    cols: int,
    per: int,
    width: int,
    height: int,
    bx: int,
    by: int,
)
    requires
        per == 1 || per == 2,
        0 <= bx < width / 8,
        0 <= by < height / 8 - 1,
    ensures
        ({
            let how = deblocking::edge_filters(across_rows(width, height), g, quants, cols, per);
            let upper = (by / per) * cols + bx / per;
            let lower = ((by + 1) / per) * cols + bx / per;
            let strength = deblock::strength_of(quants[lower] as int) as i32;
            &&& how.dom().contains((bx, by))
            &&& !g[upper].not_coded ==> how[(bx, by)] == LineFilter::Ramp { strength }
            &&& !g[lower].not_coded ==> how[(bx, by)] == LineFilter::Ramp { strength }
            &&& g[upper].not_coded && g[lower].not_coded ==> how[(bx, by)] == LineFilter::Leave
        }),
{
}

/// Coarser quantisers are smoothed more strongly, from 1 for the finest to 12 for
/// the coarsest, and by one more at a time.
pub proof fn strengths_rise_with_the_quantiser(quant: int)
    requires
        1 <= quant <= 31,
    ensures
        deblock::strength_of(1) == 1,
        deblock::strength_of(31) == 12,
        1 <= deblock::strength_of(quant) <= 12,
        quant < 31 ==> 0 <= deblock::strength_of(quant + 1) - deblock::strength_of(quant) <= 1,
        quant <= 28 ==> deblock::strength_of(quant) < deblock::strength_of(quant + 3),
{
}

/// A sample of a plane, two rows and a column.
proof fn lemma_plane(width: int, height: int, len: int)
    requires
        0 <= width,
        0 <= height,
        width % 8 == 0,
        height % 8 == 0,
        len == width * height,
    ensures
        across_rows(width, height).fits(len),
        across_columns(width, height).fits(len),
{
    assert(width * height == height * width) by (nonlinear_arith);
}

/// Horizontal edges are smoothed first. The four samples that stand across the
/// edge beneath row `8 * (by + 1) - 1` of blocks become what smoothing makes of
/// the plane's own samples there, in order from the top.
pub proof fn horizontal_edges_are_smoothed_as_they_were(
    plane: Seq<u8>,
    width: int,
    height: int,
    g: Seq<grid::Entry>,
    quants: Seq<u8>,
    cols: int,
    per: int,
    x: int,
    by: int,
    t: int,
)
    requires
        width % 8 == 0,
        height % 8 == 0,
        plane.len() == width * height,
        0 <= x < width,
        0 <= by < height / 8 - 1,
        0 <= t < 4,
    ensures
        ({
            let p = across_rows(width, height);
            let how = deblocking::edge_filters(p, g, quants, cols, per);
            let y = 8 * by + 6;
            let line = seq![
                plane[y * width + x],
                plane[(y + 1) * width + x],
                plane[(y + 2) * width + x],
                plane[(y + 3) * width + x],
            ];
            p.filtered(plane, how)[(y + t) * width + x] == deblock::smoothed(
                how[(x / 8, by)],
                line,
            )[t]
        }),
{
    let p = across_rows(width, height);
    let how = deblocking::edge_filters(p, g, quants, cols, per);
    let len = plane.len() as int;
    lemma_plane(width, height, len);
    let y = 8 * by + 6;
    let line = seq![
        plane[y * width + x],
        plane[(y + 1) * width + x],
        plane[(y + 2) * width + x],
        plane[(y + 3) * width + x],
    ];
    p.lemma_line(by, t);
    p.lemma_place(len, y + t, x);
    p.lemma_at_edge(y + t, x);
    assert((by + 1) * 8 - 2 + t == y + t);
    assert(p.line(plane, by, x) =~= line);
}

/// Then vertical edges are smoothed, from what the horizontal ones have left. The
/// four samples that stand across the edge behind column `8 * (bx + 1) - 1` become
/// what smoothing makes of those, in order from the left.
pub proof fn vertical_edges_see_smoothed_rows(
    plane: Seq<u8>,
    width: int,
    height: int,
    g: Seq<grid::Entry>,
    quants: Seq<u8>,
    cols: int,
    per: int,
    bx: int,
    y: int,
    t: int,
)
    requires
        width % 8 == 0,
        height % 8 == 0,
        plane.len() == width * height,
        0 <= y < height,
        0 <= bx < width / 8 - 1,
        0 <= t < 4,
    ensures
        ({
            let rows = across_rows(width, height);
            let between = rows.filtered(
                plane,
                deblocking::edge_filters(rows, g, quants, cols, per),
            );
            let how = deblocking::edge_filters(
                across_columns(width, height),
                g,
                quants,
                cols,
                per,
            );
            let x = 8 * bx + 6;
            let line = seq![
                between[y * width + x],
                between[y * width + (x + 1)],
                between[y * width + (x + 2)],
                between[y * width + (x + 3)],
            ];
            deblocking::deblocked_plane(plane, width, height, g, quants, cols, per)[y * width + (x
                + t)] == deblock::smoothed(how[(y / 8, bx)], line)[t]
        }),
{
    let rows = across_rows(width, height);
    let p = across_columns(width, height);
    let between = rows.filtered(plane, deblocking::edge_filters(rows, g, quants, cols, per));
    let how = deblocking::edge_filters(p, g, quants, cols, per);
    let len = plane.len() as int;
    lemma_plane(width, height, len);
    let x = 8 * bx + 6;
    let line = seq![
        between[y * width + x],
        between[y * width + (x + 1)],
        between[y * width + (x + 2)],
        between[y * width + (x + 3)],
    ];
    p.lemma_line(bx, t);
    p.lemma_place(len, x + t, y);
    p.lemma_at_edge(x + t, y);
    assert((bx + 1) * 8 - 2 + t == x + t);
    assert(p.line(between, bx, y) =~= line);
}

/// Away from vertical edges the horizontal ones decide alone, and away from both a
/// sample stays.
pub proof fn samples_away_from_edges_stay(
    plane: Seq<u8>,
    width: int,
    height: int,
    g: Seq<grid::Entry>,
    quants: Seq<u8>,
    cols: int,
    per: int,
    x: int,
    y: int,
)
    requires
        width % 8 == 0,
        height % 8 == 0,
        plane.len() == width * height,
        0 <= x < width,
        0 <= y < height,
        2 <= x % 8 <= 5,
    ensures
        ({
            let rows = across_rows(width, height);
            let k = y * width + x;
            let after = deblocking::deblocked_plane(
                plane,
                width,
                height,
                g,
                quants,
                cols,
                per,
            )[k];
            &&& after == rows.filtered(
                plane,
                deblocking::edge_filters(rows, g, quants, cols, per),
            )[k]
            &&& 2 <= y % 8 <= 5 ==> after == plane[k]
        }),
{
    let rows = across_rows(width, height);
    let p = across_columns(width, height);
    let len = plane.len() as int;
    lemma_plane(width, height, len);
    p.lemma_place(len, x, y);
    rows.lemma_place(len, y, x);
}

/// What the ramp makes of a step: a small one passes, a larger one loses what it
/// is too large by, and one of twice the strength or more is taken for a feature
/// of the picture and does not count.
pub proof fn ramps_rise_and_fall(x: int, strength: int)
    requires
        0 <= strength,
    ensures
        ({
            let r = deblock::up_down_ramp(x, strength);
            &&& -strength <= x <= strength ==> r == x
            &&& strength <= x <= 2 * strength ==> r + x == 2 * strength
            &&& -2 * strength <= x <= -strength ==> r + x == -2 * strength
            &&& x >= 2 * strength || x <= -2 * strength ==> r == 0
        }),
{
}

/// A quotient that is cut off towards zero.
proof fn lemma_cut(n: int, d: int)
    requires
        d == 2 || d == 4 || d == 8,
    ensures
        n >= 0 ==> 0 <= n - d * upsample::truncated(n, d) < d,
        n <= 0 ==> -d < n - d * upsample::truncated(n, d) <= 0,
{
}

/// The deblocking filter moves the two samples at the edge towards each other by
/// the same amount, and the two further away towards each other by the same
/// amount; the latter by no more than half of the former, nor by more than a
/// quarter of their difference.
pub proof fn smoothing_moves_samples_towards_each_other(line: Seq<u8>, strength: i32)
    requires
        line.len() == 4,
        0 <= strength,
    ensures
        ({
            let s = deblock::smoothed(LineFilter::Ramp { strength }, line);
            let near = deblock::up_down_ramp(
                upsample::truncated(line[0] - 4 * line[1] + 4 * line[2] - line[3], 8),
                strength as int,
            );
            let far = line[0] - s[0];
            &&& s.len() == 4
            &&& 0 <= line[1] + near <= 255 ==> s[1] == line[1] + near
            &&& 0 <= line[2] - near <= 255 ==> s[2] == line[2] - near
            &&& line[1] + near < 0 ==> s[1] == 0
            &&& line[1] + near > 255 ==> s[1] == 255
            &&& line[2] - near < 0 ==> s[2] == 0
            &&& line[2] - near > 255 ==> s[2] == 255
            &&& s[0] + s[3] == line[0] + line[3]
            &&& line[0] >= line[3] ==> 0 <= 4 * far <= line[0] - line[3]
            &&& line[0] <= line[3] ==> line[0] - line[3] <= 4 * far <= 0
            &&& near >= 0 ==> -near <= 2 * far <= near
            &&& near <= 0 ==> near <= 2 * far <= -near
            &&& deblock::magnitude(line[0] - line[3]) <= 2 * deblock::magnitude(near) - 4 ==> -3
                <= 4 * far - (line[0] - line[3]) <= 3
            &&& deblock::magnitude(line[0] - line[3]) >= 2 * deblock::magnitude(near) + 4
                ==> deblock::magnitude(2 * far) >= deblock::magnitude(near) - 1
        }),
{
    let n = line[0] - 4 * line[1] + 4 * line[2] - line[3];
    let near = deblock::up_down_ramp(upsample::truncated(n, 8), strength as int);
    lemma_cut(n, 8);
    lemma_cut(near, 2);
    lemma_cut(line[0] - line[3], 4);
}

/// A clean step between two blocks is narrowed from both sides, and never turned
/// round.
pub proof fn steps_are_narrowed(low: u8, high: u8, strength: i32)
    requires
        low <= high,
        0 <= strength,
    ensures
        ({
            let up = deblock::smoothed(
                LineFilter::Ramp { strength },
                seq![low, low, high, high],
            );
            let down = deblock::smoothed(
                LineFilter::Ramp { strength },
                seq![high, high, low, low],
            );
            &&& low <= up[0] <= up[1] <= up[2] <= up[3] <= high
            &&& high >= down[0] >= down[1] >= down[2] >= down[3] >= low
            &&& 8 <= 3 * (high - low) && 3 * (high - low) < 16 * strength ==> up[1] > low && up[2]
                < high && down[1] < high && down[2] > low
        }),
{
    let n = 3 * (high - low);
    lemma_cut(n, 8);
    lemma_cut(-n, 8);
    let a = deblock::up_down_ramp(upsample::truncated(n, 8), strength as int);
    let b = deblock::up_down_ramp(upsample::truncated(-n, 8), strength as int);
    lemma_cut(a, 2);
    lemma_cut(b, 2);
    lemma_cut(high - low, 4);
    lemma_cut(low - high, 4);
    let l = seq![low, low, high, high];
    let h = seq![high, high, low, low];
    assert(l[0] - 4 * l[1] + 4 * l[2] - l[3] == n);
    assert(h[0] - 4 * h[1] + 4 * h[2] - h[3] == -n);
}

/// In a picture each plane is smoothed on its own. A macroblock has two blocks by
/// two in the luma plane and one in each chroma plane, and there is one for every
/// sixteen columns and rows of luma.
pub proof fn planes_are_smoothed_on_their_own(
    p: frame::Planes,
    q: frame::Planes,
    g: Seq<grid::Entry>,
    quants: Seq<u8>,
)
    requires
        p.width == q.width,
        p.height == q.height,
    ensures
        ({
            let a = deblocking::deblocked(p, g, quants);
            let b = deblocking::deblocked(q, g, quants);
            let w = p.width;
            let h = p.height;
            &&& a.width == w && a.height == h
            &&& p.y == q.y ==> a.y == b.y
            &&& p.cb == q.cb ==> a.cb == b.cb
            &&& p.cr == q.cr ==> a.cr == b.cr
            &&& p.cb == q.cr ==> a.cb == b.cr
            &&& a.y == deblocking::deblocked_plane(p.y, w, h, g, quants, w / 16, 2)
            &&& a.cb == deblocking::deblocked_plane(p.cb, w / 2, h / 2, g, quants, w / 16, 1)
        }),
{
}

} // verus!
