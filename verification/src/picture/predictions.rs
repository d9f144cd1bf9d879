//! The predictions of a macroblock's six blocks, and the four vectors of one.

use super::blocks;
use super::frame;
use super::frame::YuvFrame;
use super::grid;
use super::grid::{build_4mv_neighbourhood, classify_remote_mvs, entry_at, MbGridEntry};
use crate::macroblock::Mvd;
use crate::motion;
use crate::motion::{
    chroma_mv, chroma_mv_4mv, motion_compensate_block, obmc_predict_block, predict_mv_median,
    reconstruct_mv, reconstruct_mv_umv, select_4mv_candidates, LumaBlockIndex, Mb4Mv,
    Mb4MvNeighbourhood, MotionVector, RefPlane, RemoteMv, RCONTROL_DEFAULT,
};
use vstd::prelude::*;

verus! {

/// The prediction of a luma block by a vector.
pub open spec fn luma_by(
    reference: frame::Planes,
    col: int,
    row: int,
    blk: int,
    mv: MotionVector,
) -> Seq<u8> {
    motion::predicted_block(
        reference.y,
        reference.width,
        reference.height,
        blocks::luma_x(col, blk),
        blocks::luma_y(row, blk),
        mv,
        0,
    )
}

/// The prediction of a macroblock's block in a chroma plane by a vector.
pub open spec fn chroma_by(
    plane: Seq<u8>,
    reference: frame::Planes,
    col: int,
    row: int,
    mv: MotionVector,
) -> Seq<u8> {
    motion::predicted_block(
        plane,
        reference.width / 2,
        reference.height / 2,
        8 * col,
        8 * row,
        mv,
        0,
    )
}

/// The predictions of a macroblock's blocks by one luma vector.
pub open spec fn by_one_vector(
    reference: frame::Planes,
    col: int,
    row: int,
    mv: MotionVector,
) -> Seq<Seq<u8>> {
    seq![
        luma_by(reference, col, row, 0, mv),
        luma_by(reference, col, row, 1, mv),
        luma_by(reference, col, row, 2, mv),
        luma_by(reference, col, row, 3, mv),
        chroma_by(reference.cb, reference, col, row, motion::chroma_vector(mv)),
        chroma_by(reference.cr, reference, col, row, motion::chroma_vector(mv)),
    ]
}

/// The luma plane of a frame to predict from.
fn luma_plane<'a>(
    reference: &'a YuvFrame,
    Ghost(cols): Ghost<int>,
    Ghost(rows): Ghost<int>,
) -> (p: RefPlane<'a>)
    requires
        blocks::has_macroblocks(reference@, cols, rows),
    ensures
        p.wf(),
        p.samples@ == reference@.y,
        p.width == reference@.width,
        p.height == reference@.height,
{
    RefPlane::new(reference.y.as_slice(), reference.luma_width, reference.luma_height)
}

/// Predict a macroblock's block in a chroma plane.
fn predict_chroma(
    reference: &YuvFrame,
    plane: &Vec<u8>,
    col: usize,
    row: usize,
    mv: MotionVector,
    Ghost(cols): Ghost<int>,
    Ghost(rows): Ghost<int>,
) -> (block: [u8; 64])
    requires
        blocks::has_macroblocks(reference@, cols, rows),
        plane@.len() == (reference@.width / 2) * (reference@.height / 2),
        col < cols,
        row < rows,
        mv.in_range(),
    ensures
        block@ == chroma_by(plane@, reference@, col as int, row as int, mv),
{
    let p: RefPlane<'_> = RefPlane::new(
        plane.as_slice(),
        reference.luma_width / 2,
        reference.luma_height / 2,
    );
    motion_compensate_block(&p, 8 * col, 8 * row, mv, RCONTROL_DEFAULT)
}

/// Predict a macroblock's blocks by one luma vector.
pub(crate) fn predict_by_one_vector(
    reference: &YuvFrame,
    col: usize,
    row: usize,
    mv: MotionVector,
    Ghost(cols): Ghost<int>,
    Ghost(rows): Ghost<int>,
) -> (pred: [[u8; 64]; 6])
    requires
        blocks::has_macroblocks(reference@, cols, rows),
        col < cols,
        row < rows,
        mv.in_range(),
    ensures
        blocks::six(pred@) == by_one_vector(reference@, col as int, row as int, mv),
{
    let y: RefPlane<'_> = luma_plane(reference, Ghost(cols), Ghost(rows));
    let c: MotionVector = chroma_mv(mv);
    let x0: usize = 16 * col;
    let y0: usize = 16 * row;
    let b0: [u8; 64] = motion_compensate_block(&y, x0, y0, mv, RCONTROL_DEFAULT);
    let b1: [u8; 64] = motion_compensate_block(&y, x0 + 8, y0, mv, RCONTROL_DEFAULT);
    let b2: [u8; 64] = motion_compensate_block(&y, x0, y0 + 8, mv, RCONTROL_DEFAULT);
    let b3: [u8; 64] = motion_compensate_block(&y, x0 + 8, y0 + 8, mv, RCONTROL_DEFAULT);
    let cb: [u8; 64] = predict_chroma(
        reference,
        &reference.cb,
        col,
        row,
        c,
        Ghost(cols),
        Ghost(rows),
    );
    let cr: [u8; 64] = predict_chroma(
        reference,
        &reference.cr,
        col,
        row,
        c,
        Ghost(cols),
        Ghost(rows),
    );
    let pred: [[u8; 64]; 6] = [b0, b1, b2, b3, cb, cr];
    assert(blocks::six(pred@) =~= by_one_vector(reference@, col as int, row as int, mv));
    pred
}

/// The predictor of the vector of block `blk` of a macroblock with four
/// vectors.
///
/// At the upper border the two upper blocks have only their left candidate;
/// beyond the right edge the right candidate of the two right blocks is zero.
pub open spec fn block_predictor(
    blk: LumaBlockIndex,
    n: motion::Around,
    top_border: bool,
    outside_right: bool,
) -> MotionVector {
    let (c1, c2, c3) = motion::candidates(blk, n);
    let upper = blk == LumaBlockIndex::B1 || blk == LumaBlockIndex::B2;
    let right = blk == LumaBlockIndex::B2 || blk == LumaBlockIndex::B4;
    let mv2 = if upper && top_border {
        c1
    } else {
        c2
    };
    let mv3 = if right && outside_right {
        motion::zero_vector()
    } else if upper && top_border {
        c1
    } else {
        c3
    };
    motion::median_vector(c1, mv2, mv3)
}

/// The vector of block `blk` from its difference.
pub open spec fn block_vector(
    blk: LumaBlockIndex,
    n: motion::Around,
    top_border: bool,
    outside_right: bool,
    umv: bool,
    mvd: Mvd,
) -> MotionVector {
    motion::reconstructed(umv, block_predictor(blk, n, top_border, outside_right), mvd)
}

/// The four vectors of a macroblock from their differences. All are predicted
/// from the same surroundings: none is a candidate for another.
pub open spec fn four_vectors(
    n: motion::Around,
    top_border: bool,
    outside_right: bool,
    umv: bool,
    mvds: Seq<Mvd>,
) -> Seq<MotionVector> {
    seq![
        block_vector(LumaBlockIndex::B1, n, top_border, outside_right, umv, mvds[0]),
        block_vector(LumaBlockIndex::B2, n, top_border, outside_right, umv, mvds[1]),
        block_vector(LumaBlockIndex::B3, n, top_border, outside_right, umv, mvds[2]),
        block_vector(LumaBlockIndex::B4, n, top_border, outside_right, umv, mvds[3]),
    ]
}

/// Vectors, where there are any, are four and within range.
pub open spec fn optional_in_range(v: Option<Seq<MotionVector>>) -> bool {
    v matches Some(s) ==> s.len() == 4 && all_in_range(s)
}

/// Vectors are within range.
pub open spec fn all_in_range(s: Seq<MotionVector>) -> bool {
    forall|i: int| 0 <= i < s.len() ==> (#[trigger] s[i]).in_range()
}

/// The vectors around a macroblock are within range.
pub open spec fn around_in_range(n: motion::Around) -> bool {
    &&& n.current.len() == 4
    &&& all_in_range(n.current)
    &&& optional_in_range(n.left)
    &&& optional_in_range(n.above)
    &&& optional_in_range(n.above_right)
    &&& optional_in_range(n.right)
}

/// Reconstruct the vector of block `blk`.
fn reconstruct_block_vector(
    blk: LumaBlockIndex,
    n: &Mb4MvNeighbourhood,
    top_border: bool,
    outside_right: bool,
    umv: bool,
    mvd: Mvd,
) -> (mv: MotionVector)
    requires
        around_in_range(n@),
        motion::mvd_in_range(mvd),
    ensures
        mv == block_vector(blk, n@, top_border, outside_right, umv, mvd),
        mv.in_range(),
{
    let (c1, c2, c3): (MotionVector, MotionVector, MotionVector) = select_4mv_candidates(blk, n);
    let upper: bool = matches!(blk, LumaBlockIndex::B1 | LumaBlockIndex::B2);
    let right: bool = matches!(blk, LumaBlockIndex::B2 | LumaBlockIndex::B4);
    let mv2: MotionVector = if upper && top_border {
        c1
    } else {
        c2
    };
    let mv3: MotionVector = if right && outside_right {
        MotionVector { dx: 0, dy: 0 }
    } else if upper && top_border {
        c1
    } else {
        c3
    };
    let predictor: MotionVector = predict_mv_median(c1, mv2, mv3);
    if umv {
        reconstruct_mv_umv(predictor, mvd)
    } else {
        reconstruct_mv(predictor, mvd)
    }
}

/// Reconstruct the four vectors of a macroblock.
pub fn reconstruct_four_vectors(
    grid: &[MbGridEntry],
    mb_cols: usize,
    col: usize,
    row: usize,
    top_border: bool,
    umv: bool,
    mvds: &[Mvd; 4],
) -> (mvs: Mb4Mv)
    requires
        col < mb_cols,
        (row + 1) * mb_cols <= grid@.len(),
        grid::grid_in_range(grid::entries(grid@)),
        forall|i: int| 0 <= i < 4 ==> motion::mvd_in_range(#[trigger] mvds@[i]),
    ensures
        mvs@ == four_vectors(
            grid::around(grid::entries(grid@), mb_cols as int, col as int, row as int),
            top_border,
            col + 1 >= mb_cols,
            umv,
            mvds@,
        ),
        all_in_range(mvs@),
{
    let outside_right: bool = col >= mb_cols - 1;
    let n: Mb4MvNeighbourhood = build_4mv_neighbourhood(grid, mb_cols, col, row);
    proof {
        lemma_around_in_range(grid::entries(grid@), mb_cols as int, col as int, row as int);
    }
    let mvs: Mb4Mv = [
        reconstruct_block_vector(LumaBlockIndex::B1, &n, top_border, outside_right, umv, mvds[0]),
        reconstruct_block_vector(LumaBlockIndex::B2, &n, top_border, outside_right, umv, mvds[1]),
        reconstruct_block_vector(LumaBlockIndex::B3, &n, top_border, outside_right, umv, mvds[2]),
        reconstruct_block_vector(LumaBlockIndex::B4, &n, top_border, outside_right, umv, mvds[3]),
    ];
    assert(mvs@ =~= four_vectors(n@, top_border, outside_right, umv, mvds@));
    mvs
}

/// What surrounds a macroblock in a grid that is within range is.
proof fn lemma_around_in_range(g: Seq<grid::Entry>, mb_cols: int, col: int, row: int)
    requires
        grid::grid_in_range(g),
        0 <= col < mb_cols,
        0 <= row,
        (row + 1) * mb_cols <= g.len(),
    ensures
        around_in_range(grid::around(g, mb_cols, col, row)),
{
    crate::scal_upsample::lemma_position(row, col, mb_cols, row + 1);
    assert(mb_cols * (row + 1) == (row + 1) * mb_cols) by (nonlinear_arith);
    if row > 0 {
        crate::scal_upsample::lemma_position(row - 1, col, mb_cols, row + 1);
        if col + 1 < mb_cols {
            crate::scal_upsample::lemma_position(row - 1, col + 1, mb_cols, row + 1);
        }
    }
}

/// The macroblock at column `col` and row `row` of a grid, if it has one there.
pub open spec fn neighbour(g: Seq<grid::Entry>, mb_cols: int, col: int, row: int) -> Option<
    grid::Entry,
> {
    if 0 <= col < mb_cols && 0 <= row {
        Some(g[row * mb_cols + col])
    } else {
        None
    }
}

/// The prediction of a luma block by its own vector and those around it.
pub open spec fn overlapped_luma(
    reference: frame::Planes,
    g: Seq<grid::Entry>,
    mb_cols: int,
    col: int,
    row: int,
    blk: LumaBlockIndex,
    mvs: Seq<MotionVector>,
) -> Seq<u8> {
    let (above, below, left, right) = grid::remotes(
        blk,
        mvs,
        neighbour(g, mb_cols, col, row - 1),
        neighbour(g, mb_cols, col - 1, row),
        neighbour(g, mb_cols, col + 1, row),
        row == 0,
        col == 0,
        col + 1 >= mb_cols,
    );
    motion::overlapped_block(
        reference.y,
        reference.width,
        reference.height,
        blocks::luma_x(col, blk.spec_index()),
        blocks::luma_y(row, blk.spec_index()),
        mvs[blk.spec_index()],
        above,
        below,
        left,
        right,
        0,
    )
}

/// The predictions of a macroblock's blocks by four luma vectors.
pub open spec fn by_four_vectors(
    reference: frame::Planes,
    g: Seq<grid::Entry>,
    mb_cols: int,
    col: int,
    row: int,
    mvs: Seq<MotionVector>,
) -> Seq<Seq<u8>> {
    seq![
        overlapped_luma(reference, g, mb_cols, col, row, LumaBlockIndex::B1, mvs),
        overlapped_luma(reference, g, mb_cols, col, row, LumaBlockIndex::B2, mvs),
        overlapped_luma(reference, g, mb_cols, col, row, LumaBlockIndex::B3, mvs),
        overlapped_luma(reference, g, mb_cols, col, row, LumaBlockIndex::B4, mvs),
        chroma_by(reference.cb, reference, col, row, motion::chroma_vector_of_four(mvs)),
        chroma_by(reference.cr, reference, col, row, motion::chroma_vector_of_four(mvs)),
    ]
}

/// Predict a luma block by its own vector and those around it.
fn predict_overlapped(
    reference: &YuvFrame,
    grid: &[MbGridEntry],
    mb_cols: usize,
    col: usize,
    row: usize,
    blk: LumaBlockIndex,
    mvs: &Mb4Mv,
    Ghost(rows): Ghost<int>,
) -> (block: [u8; 64])
    requires
        blocks::has_macroblocks(reference@, mb_cols as int, rows),
        col < mb_cols,
        row < rows,
        grid@.len() == mb_cols * rows,
        grid::grid_in_range(grid::entries(grid@)),
        all_in_range(mvs@),
    ensures
        block@ == overlapped_luma(
            reference@,
            grid::entries(grid@),
            mb_cols as int,
            col as int,
            row as int,
            blk,
            mvs@,
        ),
{
    let ghost g = grid::entries(grid@);
    proof {
        assert((row + 1) * mb_cols <= mb_cols * rows) by (nonlinear_arith)
            requires
                row + 1 <= rows,
                0 <= mb_cols,
        ;
        crate::scal_upsample::lemma_position(row as int, col as int, mb_cols as int, rows);
        if row > 0 {
            crate::scal_upsample::lemma_position(row - 1, col as int, mb_cols as int, rows);
            assert((row - 1 + 1) * mb_cols <= (row + 1) * mb_cols) by (nonlinear_arith)
                requires
                    0 <= mb_cols,
            ;
        }
        if col + 1 < mb_cols {
            crate::scal_upsample::lemma_position(row as int, col + 1, mb_cols as int, rows);
        }
    }
    let outside_right: bool = col >= mb_cols - 1;
    let above: Option<MbGridEntry> = if row == 0 {
        None
    } else {
        Some(*entry_at(grid, mb_cols, col, row - 1))
    };
    let left: Option<MbGridEntry> = if col == 0 {
        None
    } else {
        Some(*entry_at(grid, mb_cols, col - 1, row))
    };
    let right: Option<MbGridEntry> = if outside_right {
        None
    } else {
        Some(*entry_at(grid, mb_cols, col + 1, row))
    };
    assert(grid::entry_of(above) == neighbour(g, mb_cols as int, col as int, row - 1));
    assert(grid::entry_of(left) == neighbour(g, mb_cols as int, col - 1, row as int));
    assert(grid::entry_of(right) == neighbour(g, mb_cols as int, col + 1, row as int));
    let i: usize = blk.index();
    let (t, b, l, r): (RemoteMv, RemoteMv, RemoteMv, RemoteMv) = classify_remote_mvs(
        blk,
        mvs,
        above,
        left,
        right,
        row == 0,
        col == 0,
        outside_right,
        false,
    );
    let y: RefPlane<'_> = luma_plane(reference, Ghost(mb_cols as int), Ghost(rows));
    obmc_predict_block(
        &y,
        16 * col + 8 * (i % 2),
        16 * row + 8 * (i / 2),
        mvs[i],
        t,
        b,
        l,
        r,
        RCONTROL_DEFAULT,
    )
}

/// Predict a macroblock's blocks by four luma vectors.
#[verifier::spinoff_prover]
pub(crate) fn predict_by_four_vectors(
    reference: &YuvFrame,
    grid: &[MbGridEntry],
    mb_cols: usize,
    col: usize,
    row: usize,
    mvs: &Mb4Mv,
    Ghost(rows): Ghost<int>,
) -> (pred: [[u8; 64]; 6])
    requires
        blocks::has_macroblocks(reference@, mb_cols as int, rows),
        col < mb_cols,
        row < rows,
        grid@.len() == mb_cols * rows,
        grid::grid_in_range(grid::entries(grid@)),
        all_in_range(mvs@),
    ensures
        blocks::six(pred@) == by_four_vectors(
            reference@,
            grid::entries(grid@),
            mb_cols as int,
            col as int,
            row as int,
            mvs@,
        ),
{
    let b0: [u8; 64] = predict_overlapped(
        reference,
        grid,
        mb_cols,
        col,
        row,
        LumaBlockIndex::B1,
        mvs,
        Ghost(rows),
    );
    let b1: [u8; 64] = predict_overlapped(
        reference,
        grid,
        mb_cols,
        col,
        row,
        LumaBlockIndex::B2,
        mvs,
        Ghost(rows),
    );
    let b2: [u8; 64] = predict_overlapped(
        reference,
        grid,
        mb_cols,
        col,
        row,
        LumaBlockIndex::B3,
        mvs,
        Ghost(rows),
    );
    let b3: [u8; 64] = predict_overlapped(
        reference,
        grid,
        mb_cols,
        col,
        row,
        LumaBlockIndex::B4,
        mvs,
        Ghost(rows),
    );
    let c: MotionVector = chroma_mv_4mv(mvs);
    let cb: [u8; 64] = predict_chroma(
        reference,
        &reference.cb,
        col,
        row,
        c,
        Ghost(mb_cols as int),
        Ghost(rows),
    );
    let cr: [u8; 64] = predict_chroma(
        reference,
        &reference.cr,
        col,
        row,
        c,
        Ghost(mb_cols as int),
        Ghost(rows),
    );
    let pred: [[u8; 64]; 6] = [b0, b1, b2, b3, cb, cr];
    assert(blocks::six(pred@) =~= by_four_vectors(
        reference@,
        grid::entries(grid@),
        mb_cols as int,
        col as int,
        row as int,
        mvs@,
    ));
    pred
}

} // verus!
