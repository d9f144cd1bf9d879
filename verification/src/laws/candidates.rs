//! Laws of the vectors that others are predicted from.

use crate::macroblock::{H263Macroblock, Mvd};
use crate::motion;
use crate::motion::{Around, LumaBlockIndex, MotionVector};
use crate::pb_layer::BpbCodingMode;
use crate::picture::b_part;
use crate::picture::b_part::PbTimes;
use crate::picture::grid;
use crate::picture::predictions;
use vstd::prelude::*;

verus! {

/// The vector of the luma block at column `x` and row `y`, counted in blocks from the
/// first block of a macroblock; the macroblocks around it have negative columns and rows,
/// or columns from 2 on.
pub open spec fn block_at(n: Around, x: int, y: int) -> MotionVector {
    let m = if 0 <= x < 2 && 0 <= y {
        Some(n.current)
    } else if x < 0 {
        n.left
    } else if 2 <= x && 0 <= y {
        n.right
    } else if 2 <= x {
        n.above_right
    } else {
        n.above
    };
    match m {
        Some(v) => v[2 * (y % 2) + x % 2],
        None => MotionVector { dx: 0, dy: 0 },
    }
}

/// The candidates for a block's vector are the blocks to its left, above it, and above it
/// to the right. Only the first block passes over the next one above and looks into the
/// macroblock above to the right.
pub proof fn candidates_touch_their_block(n: Around)
    ensures
        motion::candidates(LumaBlockIndex::B1, n) == (
            block_at(n, -1, 0),
            block_at(n, 0, -1),
            block_at(n, 2, -1),
        ),
        motion::candidates(LumaBlockIndex::B2, n) == (
            block_at(n, 0, 0),
            block_at(n, 1, -1),
            block_at(n, 2, -1),
        ),
        motion::candidates(LumaBlockIndex::B3, n) == (
            block_at(n, -1, 1),
            block_at(n, 0, 0),
            block_at(n, 1, 0),
        ),
        motion::candidates(LumaBlockIndex::B4, n) == (
            block_at(n, 0, 1),
            block_at(n, 1, 0),
            block_at(n, 2, 0),
        ),
{
}

/// The upper border of a picture or group changes the predictors of the upper blocks only:
/// the block to the left predicts them alone. The right border changes those of the right
/// blocks only: a candidate that stands behind it counts as zero.
pub proof fn borders_change_the_blocks_that_touch_them(
    n: Around,
    blk: LumaBlockIndex,
    top: bool,
    right: bool,
)
    ensures
        ({
            let p = predictions::block_predictor(blk, n, top, right);
            let (a, b, c) = motion::candidates(blk, n);
            let zero = MotionVector { dx: 0, dy: 0 };
            let upper = blk.spec_index() < 2;
            let on_the_right = blk.spec_index() % 2 == 1;
            &&& !upper ==> p == predictions::block_predictor(blk, n, !top, right)
            &&& !on_the_right ==> p == predictions::block_predictor(blk, n, top, !right)
            &&& upper && top ==> p == a
            &&& !(upper && top) && !(on_the_right && right) && a == b ==> p == a
            &&& !(upper && top) && !(on_the_right && right) && a == c ==> p == a
            &&& !(upper && top) && !(on_the_right && right) && b == c ==> p == b
            &&& !(upper && top) && on_the_right && right && a == b ==> p == a
            &&& !(upper && top) && on_the_right && right && a == zero ==> p == zero
            &&& !(upper && top) && on_the_right && right && b == zero ==> p == zero
        }),
{
}

/// Macroblocks that are INTRA or skipped have no vectors to predict others from, and
/// neither has the macroblock to the right.
pub proof fn macroblocks_without_vectors_count_as_zero(
    g: Seq<grid::Entry>,
    cols: int,
    col: int,
    row: int,
)
    requires
        0 <= col < cols,
        0 <= row,
    ensures
        ({
            let n = grid::around(g, cols, col, row);
            let left = g[row * cols + (col - 1)];
            let above = g[(row - 1) * cols + col];
            let above_right = g[(row - 1) * cols + (col + 1)];
            &&& n.left is Some <==> col > 0 && !left.intra && !left.not_coded
            &&& n.above is Some <==> row > 0 && !above.intra && !above.not_coded
            &&& n.above_right is Some <==> row > 0 && col + 1 < cols && !above_right.intra
                && !above_right.not_coded
            &&& n.right is None
            &&& n.left is Some ==> n.left == Some(left.mvs4)
            &&& n.above is Some ==> n.above == Some(above.mvs4)
            &&& n.above_right is Some ==> n.above_right == Some(above_right.mvs4)
        }),
{
    assert(row * cols + col - 1 == row * cols + (col - 1));
    assert((row - 1) * cols + col + 1 == (row - 1) * cols + (col + 1));
}

/// Where the macroblock above to the right belongs to another segment, the one to the left
/// predicts alone.
pub proof fn other_segments_do_not_predict(
    g: Seq<grid::Entry>,
    cols: int,
    col: int,
    row: int,
    gob_top_row: int,
    gob_header_present: bool,
    pb_frames: bool,
    segment: u32,
)
    requires
        0 <= col < cols - 1,
        0 < row,
        g[(row - 1) * cols + (col + 1)].segment != segment,
    ensures
        ({
            let left = g[row * cols + (col - 1)];
            grid::predictor(
                g,
                cols,
                col,
                row,
                gob_top_row,
                gob_header_present,
                pb_frames,
                segment,
            ) == if col > 0 && left.segment == segment && !left.not_coded && (pb_frames
                || !left.intra) {
                left.mv
            } else {
                MotionVector { dx: 0, dy: 0 }
            }
        }),
{
    assert(row * cols + col - 1 == row * cols + (col - 1));
    assert((row - 1) * cols + col + 1 == (row - 1) * cols + (col + 1));
}

/// A forward vector of an improved PB-frame is the sum of the one to its left, or of zero,
/// and its difference, up to 64, and never leaves -32 to 31.
pub proof fn forward_vectors_stay_in_range(
    mb: H263Macroblock,
    mvs4: Seq<MotionVector>,
    left: Option<MotionVector>,
    pb: PbTimes,
    diff: Mvd,
)
    requires
        pb.annex_m,
        b_part::coding_mode(mb) == BpbCodingMode::Forward,
        mb.mvdb == Some(diff),
        -32 <= diff.dx_half <= 31,
        -32 <= diff.dy_half <= 31,
        left matches Some(v) ==> -32 <= v.dx <= 31 && -32 <= v.dy <= 31,
    ensures
        ({
            let p = match left {
                Some(v) => v,
                None => MotionVector { dx: 0, dy: 0 },
            };
            let v = b_part::left_after(mb, left, pb)->Some_0;
            &&& b_part::left_after(mb, left, pb) is Some
            &&& -32 <= v.dx <= 31
            &&& -32 <= v.dy <= 31
            &&& (v.dx - p.dx - diff.dx_half) % 64 == 0
            &&& (v.dy - p.dy - diff.dy_half) % 64 == 0
        }),
{
}

} // verus!
