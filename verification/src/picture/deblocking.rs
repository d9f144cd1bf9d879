//! The deblocking filter over a whole picture.

use super::blocks;
use super::frame;
use super::frame::YuvFrame;
use super::grid;
use super::grid::{entry_at, MbGridEntry};
use crate::deblock;
use crate::deblock::{deblock_plane, strength_for_quant, EdgeCondition, LineFilter};
use crate::scal_upsample;
use vstd::prelude::*;

verus! {

/// The index of the macroblock that a block belongs to, with `per` blocks to a
/// macroblock in each direction.
pub open spec fn owner(block: (int, int), cols: int, per: int) -> int {
    (block.1 / per) * cols + block.0 / per
}

/// What is done at the edge between two blocks: it is smoothed where either
/// belongs to a macroblock that was not skipped, by the quantiser of the second
/// one's macroblock.
pub open spec fn edge_filter(
    g: Seq<grid::Entry>,
    quants: Seq<u8>,
    cols: int,
    per: int,
    first: (int, int),
    second: (int, int),
) -> LineFilter {
    let m1 = owner(first, cols, per);
    let m2 = owner(second, cols, per);
    if g[m1].not_coded && g[m2].not_coded {
        LineFilter::Leave
    } else {
        LineFilter::Ramp { strength: deblock::strength_of(quants[m2] as int) as i32 }
    }
}

/// What is done at every edge of a pass.
pub open spec fn edge_filters(
    p: deblock::Pass,
    g: Seq<grid::Entry>,
    quants: Seq<u8>,
    cols: int,
    per: int,
) -> Map<(int, int), LineFilter> {
    Map::new(
        |k: (int, int)| p.has_edge(k.0, k.1),
        |k: (int, int)|
            if p.upright {
                edge_filter(g, quants, cols, per, (k.1, k.0), (k.1 + 1, k.0))
            } else {
                edge_filter(g, quants, cols, per, (k.0, k.1), (k.0, k.1 + 1))
            },
    )
}

/// A plane after the filter: its horizontal edges, then its vertical ones.
pub open spec fn deblocked_plane(
    plane: Seq<u8>,
    width: int,
    height: int,
    g: Seq<grid::Entry>,
    quants: Seq<u8>,
    cols: int,
    per: int,
) -> Seq<u8> {
    let rows = deblock::Pass { stride: width, upright: false, across: height, along: width, dim: 8 };
    let columns = deblock::Pass {
        stride: width,
        upright: true,
        across: width,
        along: height,
        dim: 8,
    };
    columns.filtered(
        rows.filtered(plane, edge_filters(rows, g, quants, cols, per)),
        edge_filters(columns, g, quants, cols, per),
    )
}

/// A picture after the filter.
pub open spec fn deblocked(p: frame::Planes, g: Seq<grid::Entry>, quants: Seq<u8>) -> frame::Planes {
    let cols = p.width / 16;
    frame::Planes {
        y: deblocked_plane(p.y, p.width, p.height, g, quants, cols, 2),
        cb: deblocked_plane(p.cb, p.width / 2, p.height / 2, g, quants, cols, 1),
        cr: deblocked_plane(p.cr, p.width / 2, p.height / 2, g, quants, cols, 1),
        width: p.width,
        height: p.height,
    }
}

/// All quantisers are ones that can be sent.
pub open spec fn quantisers_set(quants: Seq<u8>) -> bool {
    forall|i: int| 0 <= i < quants.len() ==> 1 <= #[trigger] quants[i] <= 31
}

/// A block lies inside a picture of `cols` by `rows` macroblocks.
pub open spec fn inside(block: (usize, usize), cols: int, rows: int, per: int) -> bool {
    block.0 < per * cols && block.1 < per * rows
}

/// A block's place as integers.
pub open spec fn as_ints(block: (usize, usize)) -> (int, int) {
    (block.0 as int, block.1 as int)
}

/// Tell what is done at the edge between two blocks.
fn edge_condition(
    grid: &[MbGridEntry],
    quants: &[u8],
    cols: usize,
    per: usize,
    first: (usize, usize),
    second: (usize, usize),
    Ghost(rows): Ghost<int>,
) -> (c: EdgeCondition)
    requires
        per == 1 || per == 2,
        grid@.len() == cols * rows,
        quants@.len() == cols * rows,
        quantisers_set(quants@),
        inside(first, cols as int, rows, per as int),
        inside(second, cols as int, rows, per as int),
    ensures
        deblock::deblocking_of(c) == edge_filter(
            grid::entries(grid@),
            quants@,
            cols as int,
            per as int,
            as_ints(first),
            as_ints(second),
        ),
        c matches EdgeCondition::Filter { strength } ==> 0 <= strength,
{
    let x1: usize = first.0 / per;
    let y1: usize = first.1 / per;
    let x2: usize = second.0 / per;
    let y2: usize = second.1 / per;
    proof {
        vstd::arithmetic::div_mod::lemma_multiply_divide_lt(first.0 as int, per as int, cols as int);
        vstd::arithmetic::div_mod::lemma_multiply_divide_lt(first.1 as int, per as int, rows);
        vstd::arithmetic::div_mod::lemma_multiply_divide_lt(second.0 as int, per as int, cols as int);
        vstd::arithmetic::div_mod::lemma_multiply_divide_lt(second.1 as int, per as int, rows);
        scal_upsample::lemma_position(y1 as int, x1 as int, cols as int, rows);
        scal_upsample::lemma_position(y2 as int, x2 as int, cols as int, rows);
        assert((y1 + 1) * cols <= cols * rows) by (nonlinear_arith)
            requires
                y1 + 1 <= rows,
                0 <= cols,
        ;
        assert((y2 + 1) * cols <= cols * rows) by (nonlinear_arith)
            requires
                y2 + 1 <= rows,
                0 <= cols,
        ;
        assert(quants.len() == quants@.len());
    }
    let e1: &MbGridEntry = entry_at(grid, cols, x1, y1);
    let e2: &MbGridEntry = entry_at(grid, cols, x2, y2);
    if e1.not_coded && e2.not_coded {
        EdgeCondition::Skip
    } else {
        EdgeCondition::Filter { strength: strength_for_quant(quants[y2 * cols + x2]) }
    }
}

/// Passes that do the same at every edge do the same.
proof fn lemma_same_filters(
    p: deblock::Pass,
    plane: Seq<u8>,
    a: Map<(int, int), LineFilter>,
    b: Map<(int, int), LineFilter>,
)
    requires
        p.fits(plane.len() as int),
        forall|i: int, e: int|
            #![trigger a.dom().contains((i, e))]
            p.has_edge(i, e) ==> a.dom().contains((i, e)) && b.dom().contains((i, e)) && a[(i, e)]
                == b[(i, e)],
    ensures
        p.filtered(plane, a) == p.filtered(plane, b),
{
    assert forall|k: int| 0 <= k < plane.len() implies p.sample(plane, a, k) == p.sample(
        plane,
        b,
        k,
    ) by {
        let u = p.u_of(k);
        let v = p.v_of(k);
        if 0 <= u < p.across && 0 <= v < p.along && p.near_edge(u) {
            p.lemma_at_edge(u, v);
            let i = v / p.dim;
            assert(a.dom().contains((i, p.edge_of(u))));
        }
    }
    assert(p.filtered(plane, a) =~= p.filtered(plane, b));
}

/// Run the filter over a plane.
#[verifier::spinoff_prover]
fn deblock_by_grid(
    plane: &mut Vec<u8>,
    width: usize,
    height: usize,
    grid: &[MbGridEntry],
    quants: &[u8],
    cols: usize,
    per: usize,
    Ghost(rows): Ghost<int>,
)
    requires
        per == 1 || per == 2,
        grid@.len() == cols * rows,
        quants@.len() == cols * rows,
        quantisers_set(quants@),
        width == 8 * per * cols,
        height == 8 * per * rows,
        old(plane)@.len() == width * height,
    ensures
        final(plane)@ == deblocked_plane(
            old(plane)@,
            width as int,
            height as int,
            grid::entries(grid@),
            quants@,
            cols as int,
            per as int,
        ),
        final(plane)@.len() == old(plane)@.len(),
{
    let ghost g = grid::entries(grid@);
    let ghost q = quants@;
    let ghost rp = deblock::rows_pass(width, height, width, 8);
    let ghost cp = deblock::columns_pass(width, height, width, 8);
    let ghost p0 = plane@;
    let condition = |b1: (usize, usize), b2: (usize, usize)| -> (c: EdgeCondition)
        requires
            inside(b1, cols as int, rows, per as int),
            inside(b2, cols as int, rows, per as int),
        ensures
            deblock::deblocking_of(c) == edge_filter(
                grid::entries(grid@),
                quants@,
                cols as int,
                per as int,
                as_ints(b1),
                as_ints(b2),
            ),
            c matches EdgeCondition::Filter { strength } ==> 0 <= strength,
        { edge_condition(grid, quants, cols, per, b1, b2, Ghost(rows)) };
    proof {
        assert(width * height == height * width) by (nonlinear_arith);
        if per == 1 {
            assert(8 * per * cols == 8 * cols && 8 * per * rows == 8 * rows);
        } else {
            assert(8 * per * cols == 16 * cols && 8 * per * rows == 16 * rows);
        }
        assert(width as int / 8 == per * cols && width % 8 == 0);
        assert(height as int / 8 == per * rows && height % 8 == 0);
    }
    deblock_plane(plane.as_mut_slice(), width, height, width, condition);
    proof {
        let (rows_how, columns_how) = choose|
            a: Map<(int, int), LineFilter>,
            b: Map<(int, int), LineFilter>,
        |
            #![trigger deblock::deblocking_decided(condition, rp, a), deblock::deblocking_decided(
                condition,
                cp,
                b,
            )]
            deblock::deblocking_decided(condition, rp, a) && deblock::deblocking_decided(
                condition,
                cp,
                b,
            ) && plane@ == cp.in_turn(rp.in_turn(p0, a), b);
        deblock::edges_do_not_meet(rp, p0, rows_how);
        deblock::edges_do_not_meet(cp, rp.filtered(p0, rows_how), columns_how);
        let rows_spec = edge_filters(rp, g, q, cols as int, per as int);
        let columns_spec = edge_filters(cp, g, q, cols as int, per as int);
        assert forall|i: int, e: int|
            #![trigger rows_how.dom().contains((i, e))]
            rp.has_edge(i, e) implies rows_how.dom().contains((i, e)) && rows_spec.dom().contains(
            (i, e),
        ) && rows_how[(i, e)] == rows_spec[(i, e)] by {
            assert(deblock::deblocked_as(condition, rp, rows_how, i as usize, e as usize));
        }
        assert forall|i: int, e: int|
            #![trigger columns_how.dom().contains((i, e))]
            cp.has_edge(i, e) implies columns_how.dom().contains((i, e))
            && columns_spec.dom().contains((i, e)) && columns_how[(i, e)] == columns_spec[(
            i,
            e,
        )] by {
            assert(deblock::deblocked_as(condition, cp, columns_how, i as usize, e as usize));
        }
        lemma_same_filters(rp, p0, rows_how, rows_spec);
        lemma_same_filters(cp, rp.filtered(p0, rows_how), columns_how, columns_spec);
    }
}

/// Run the deblocking filter over a decoded picture.
pub fn apply_deblocking(
    frame: &mut YuvFrame,
    grid: &[MbGridEntry],
    mb_quant: &[u8],
    mb_cols: usize,
    mb_rows: usize,
)
    requires
        blocks::has_macroblocks(old(frame)@, mb_cols as int, mb_rows as int),
        grid@.len() == mb_cols * mb_rows,
        mb_quant@.len() == mb_cols * mb_rows,
        quantisers_set(mb_quant@),
    ensures
        final(frame)@ == deblocked(old(frame)@, grid::entries(grid@), mb_quant@),
        blocks::has_macroblocks(final(frame)@, mb_cols as int, mb_rows as int),
{
    let w: usize = frame.luma_width;
    let h: usize = frame.luma_height;
    deblock_by_grid(&mut frame.y, w, h, grid, mb_quant, mb_cols, 2, Ghost(mb_rows as int));
    deblock_by_grid(&mut frame.cb, w / 2, h / 2, grid, mb_quant, mb_cols, 1, Ghost(mb_rows as int));
    deblock_by_grid(&mut frame.cr, w / 2, h / 2, grid, mb_quant, mb_cols, 1, Ghost(mb_rows as int));
}

/// A pass over a plane of equal samples changes nothing.
proof fn lemma_flat_pass(
    p: deblock::Pass,
    plane: Seq<u8>,
    g: Seq<grid::Entry>,
    quants: Seq<u8>,
    cols: int,
    per: int,
    v: u8,
)
    requires
        p.fits(plane.len() as int),
        forall|k: int| 0 <= k < plane.len() ==> #[trigger] plane[k] == v,
    ensures
        p.filtered(plane, edge_filters(p, g, quants, cols, per)) == plane,
{
    deblock::flat_planes_stay(p, plane, edge_filters(p, g, quants, cols, per), v);
}

/// A picture of equal samples is not changed by smoothing.
pub proof fn flat_pictures_stay(
    v: u8,
    width: int,
    height: int,
    g: Seq<grid::Entry>,
    quants: Seq<u8>,
)
    requires
        0 < width,
        0 < height,
        width % 16 == 0,
        height % 16 == 0,
    ensures
        deblocked(frame::uniform_planes(v, width, height), g, quants) == frame::uniform_planes(
            v,
            width,
            height,
        ),
{
    let p = frame::uniform_planes(v, width, height);
    let cols = width / 16;
    lemma_flat_plane(p.y, width, height, g, quants, cols, 2, v);
    lemma_flat_plane(p.cb, width / 2, height / 2, g, quants, cols, 1, v);
    lemma_flat_plane(p.cr, width / 2, height / 2, g, quants, cols, 1, v);
}

/// Smoothing a plane of equal samples changes nothing.
proof fn lemma_flat_plane(
    plane: Seq<u8>,
    width: int,
    height: int,
    g: Seq<grid::Entry>,
    quants: Seq<u8>,
    cols: int,
    per: int,
    v: u8,
)
    requires
        0 < width,
        0 < height,
        width % 8 == 0,
        height % 8 == 0,
        plane == frame::uniform(v, width * height),
    ensures
        deblocked_plane(plane, width, height, g, quants, cols, per) == plane,
{
    let rows = deblock::Pass { stride: width, upright: false, across: height, along: width, dim: 8 };
    let columns = deblock::Pass {
        stride: width,
        upright: true,
        across: width,
        along: height,
        dim: 8,
    };
    assert(0 <= width * height && width * height == height * width) by (nonlinear_arith)
        requires
            0 < width,
            0 < height,
    ;
    lemma_flat_pass(rows, plane, g, quants, cols, per, v);
    lemma_flat_pass(columns, plane, g, quants, cols, per, v);
}

} // verus!
