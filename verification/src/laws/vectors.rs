//! Laws of motion vectors: how they are predicted, halved for chroma and scaled
//! in time.

use crate::b_picture;
use crate::macroblock::{H263Macroblock, Mvd};
use crate::motion;
use crate::motion::{LumaBlockIndex, MotionVector};
use crate::picture::b_part;
use crate::picture::b_part::PbTimes;
use crate::picture::grid;
use crate::picture::predictions;
use crate::upsample;
use vstd::prelude::*;

verus! {

/// A quotient that is cut off towards zero lies less than one from the exact
/// one, on the side of zero.
proof fn lemma_cut_off(n: int, d: int)
    requires
        d > 0,
    ensures
        n >= 0 ==> 0 <= n - d * upsample::truncated(n, d) < d && upsample::truncated(n, d) >= 0,
        n <= 0 ==> -d < n - d * upsample::truncated(n, d) <= 0 && upsample::truncated(n, d) <= 0,
{
    if n >= 0 {
        vstd::arithmetic::div_mod::lemma_fundamental_div_mod(n, d);
        vstd::arithmetic::div_mod::lemma_div_pos_is_pos(n, d);
    } else {
        vstd::arithmetic::div_mod::lemma_fundamental_div_mod(-n, d);
        vstd::arithmetic::div_mod::lemma_div_pos_is_pos(-n, d);
        let q = (-n) / d;
        assert(d * -q == -(d * q)) by (nonlinear_arith);
    }
}

/// A B-picture lies between two others in time: along the motion of the
/// P-picture its forward vector covers the part of the way from the previous
/// picture, and its backward vector the rest of the way, the other way round.
/// Without a difference the two together span the P-vector but for what is cut
/// off, never more; the forward one never points against it, and the backward one
/// never along it.
pub proof fn b_vectors_span_the_motion(v: int, trb: int, trd: int)
    requires
        0 < trb < trd,
    ensures
        ({
            let f = b_picture::forward_component(v, 0, trb, trd);
            let b = b_picture::backward_component(v, 0, trb, trd);
            &&& v >= 0 ==> f >= 0 && b <= 0 && 0 <= trb * v - trd * f < trd && 0 <= (trd - trb) * v
                + trd * b < trd
            &&& v <= 0 ==> f <= 0 && b >= 0 && -trd < trb * v - trd * f <= 0 && -trd < (trd - trb)
                * v + trd * b <= 0
            &&& -1 <= f - b - v <= 1
            &&& v >= 0 ==> f - b <= v
            &&& v <= 0 ==> f - b >= v
        }),
{
    let f = b_picture::forward_component(v, 0, trb, trd);
    let b = b_picture::backward_component(v, 0, trb, trd);
    assert(v >= 0 ==> trb * v >= 0 && (trb - trd) * v <= 0) by (nonlinear_arith)
        requires
            0 < trb < trd,
    ;
    assert(v <= 0 ==> trb * v <= 0 && (trb - trd) * v >= 0) by (nonlinear_arith)
        requires
            0 < trb < trd,
    ;
    lemma_cut_off(trb * v, trd);
    lemma_cut_off((trb - trd) * v, trd);
    assert((trd - trb) * v == -((trb - trd) * v)) by (nonlinear_arith);
    assert(trb * v - (trb - trd) * v == trd * v) by (nonlinear_arith);
    assert(trd * f - trd * b - trd * v == trd * (f - b - v)) by (nonlinear_arith);
    let e = f - b - v;
    assert(-2 * trd < trd * e < 2 * trd);
    assert(-2 < e < 2) by (nonlinear_arith)
        requires
            -2 * trd < trd * e < 2 * trd,
            trd > 0,
    ;
    if v >= 0 {
        assert(trd * e <= 0);
        assert(e <= 0) by (nonlinear_arith)
            requires
                trd * e <= 0,
                trd > 0,
        ;
    }
    if v <= 0 {
        assert(trd * e >= 0);
        assert(e >= 0) by (nonlinear_arith)
            requires
                trd * e >= 0,
                trd > 0,
        ;
    }
}

/// A difference moves the forward vector by just that much, and the backward
/// vector then leads from where it ends to where the P-vector does.
pub proof fn differences_move_the_forward_vector(v: int, diff: int, trb: int, trd: int)
    requires
        diff != 0,
    ensures
        b_picture::forward_component(v, diff, trb, trd) - b_picture::forward_component(
            v,
            0,
            trb,
            trd,
        ) == diff,
        b_picture::forward_component(v, diff, trb, trd) - b_picture::backward_component(
            v,
            diff,
            trb,
            trd,
        ) == v,
{
}

/// In a PB-frame each luma block of a B-macroblock has a forward and a backward
/// vector of its own P-vector; without a difference they span it, in both
/// directions of the picture.
pub proof fn b_macroblocks_follow_their_p_vectors(
    mb: H263Macroblock,
    mvs4: Seq<MotionVector>,
    left: Option<MotionVector>,
    pb: PbTimes,
    i: int,
)
    requires
        0 <= i < 4,
        mvs4[i].in_range(),
        pb.wf(),
        pb.trb < pb.trd,
        !pb.annex_m,
        mb.mvdb is None,
    ensures
        b_part::b_source(mb, mvs4, left, pb) is Both,
        ({
            let s = b_part::b_source(mb, mvs4, left, pb);
            let f = s->forward[i];
            let b = s->backward[i];
            &&& -1 <= f.dx - b.dx - mvs4[i].dx <= 1
            &&& -1 <= f.dy - b.dy - mvs4[i].dy <= 1
            &&& mvs4[i].dx >= 0 ==> b.dx <= 0 <= f.dx
            &&& mvs4[i].dx <= 0 ==> f.dx <= 0 <= b.dx
            &&& mvs4[i].dy >= 0 ==> b.dy <= 0 <= f.dy
            &&& mvs4[i].dy <= 0 ==> f.dy <= 0 <= b.dy
        }),
{
    let trb = pb.trb as int;
    let trd = pb.trd as int;
    let x = mvs4[i].dx as int;
    let y = mvs4[i].dy as int;
    b_vectors_span_the_motion(x, trb, trd);
    b_vectors_span_the_motion(y, trb, trd);
}

/// The B-blocks' quantiser is five quarters of the macroblock's, six, seven or
/// eight of them, as DBQUANT says, rounded down and kept between 1 and 31.
pub proof fn b_quantisers_are_coarser(dbquant: int, quant: int)
    requires
        0 <= dbquant <= 3,
        1 <= quant <= 31,
    ensures
        ({
            let q = b_picture::b_quantiser(dbquant, quant);
            let exact = if dbquant == 0 {
                5 * quant
            } else if dbquant == 1 {
                6 * quant
            } else if dbquant == 2 {
                7 * quant
            } else {
                8 * quant
            };
            &&& quant <= q <= 31
            &&& q < 31 ==> 0 <= exact - 4 * q < 4
            &&& q == 31 ==> exact >= 4 * 31
        }),
{
    assert(dbquant == 0 || dbquant == 1 || dbquant == 2 || dbquant == 3);
}

/// The first B-block's bit is the most significant of the pattern, and the last
/// two are Cb's and Cr's.
pub proof fn b_patterns_are_read_from_the_left(cbpb: int)
    requires
        0 <= cbpb < 64,
    ensures
        b_picture::b_block_coded(cbpb, 1) <==> cbpb >= 32,
        b_picture::b_block_coded(cbpb, 2) <==> cbpb % 32 >= 16,
        b_picture::b_block_coded(cbpb, 3) <==> cbpb % 16 >= 8,
        b_picture::b_block_coded(cbpb, 4) <==> cbpb % 8 >= 4,
        b_picture::b_block_coded(cbpb, 5) <==> cbpb % 4 >= 2,
        b_picture::b_block_coded(cbpb, 6) <==> cbpb % 2 == 1,
{
}

/// A vector is the sum of its predictor and its difference, each component with
/// its own, moved by 64 where that brings it back into the range of vectors.
pub proof fn vectors_are_sums(predictor: MotionVector, mvd: Mvd)
    requires
        -32 <= predictor.dx <= 31,
        -32 <= predictor.dy <= 31,
        motion::mvd_in_range(mvd),
    ensures
        ({
            let v = motion::reconstructed(false, predictor, mvd);
            &&& -32 <= v.dx <= 31
            &&& -32 <= v.dy <= 31
            &&& (v.dx - predictor.dx - mvd.dx_half) % 64 == 0
            &&& (v.dy - predictor.dy - mvd.dy_half) % 64 == 0
        }),
{
}

/// With unrestricted vectors a vector is the sum of its predictor and its
/// difference, or that sum moved by 64; near the middle it is always the sum.
pub proof fn unrestricted_vectors_are_sums(predictor: MotionVector, mvd: Mvd)
    requires
        -63 <= predictor.dx <= 63,
        -63 <= predictor.dy <= 63,
        motion::mvd_in_range(mvd),
    ensures
        ({
            let v = motion::reconstructed(true, predictor, mvd);
            &&& -63 <= v.dx <= 63
            &&& -63 <= v.dy <= 63
            &&& (v.dx - predictor.dx - mvd.dx_half) % 64 == 0
            &&& (v.dy - predictor.dy - mvd.dy_half) % 64 == 0
            &&& -63 <= predictor.dx + mvd.dx_half <= 63 ==> v.dx == predictor.dx + mvd.dx_half
            &&& -63 <= predictor.dy + mvd.dy_half <= 63 ==> v.dy == predictor.dy + mvd.dy_half
        }),
{
}

/// A chroma vector is half as long as the luma vector, since the chroma planes
/// are half as wide and high: it stands on a whole pixel only where that is
/// exact, and else on the half pixel next to it.
pub proof fn chroma_vectors_are_half_as_long(mv: MotionVector)
    requires
        mv.in_range(),
    ensures
        ({
            let c = motion::chroma_vector(mv);
            &&& -1 <= 2 * c.dx - mv.dx <= 1
            &&& -1 <= 2 * c.dy - mv.dy <= 1
            &&& c.dx % 2 == 0 <==> mv.dx % 4 == 0
            &&& c.dy % 2 == 0 <==> mv.dy % 4 == 0
        }),
{
    lemma_halved(mv.dx as int);
    lemma_halved(mv.dy as int);
}

/// A halved component.
proof fn lemma_halved(v: int)
    requires
        -64 <= v <= 64,
    ensures
        -1 <= 2 * motion::chroma_component(v) - v <= 1,
        motion::chroma_component(v) % 2 == 0 <==> v % 4 == 0,
        -64 <= motion::chroma_component(v) <= 64,
{
}

/// The chroma vector of four luma vectors is an eighth of their sum: it stands on
/// a whole pixel where the sum is at most an eighth of a pixel away from one, and
/// else on the half pixel between.
pub proof fn chroma_vectors_are_an_eighth_of_the_sum(mvs: Seq<MotionVector>)
    requires
        mvs.len() == 4,
        forall|i: int| 0 <= i < 4 ==> (#[trigger] mvs[i]).in_range(),
    ensures
        ({
            let c = motion::chroma_vector_of_four(mvs);
            let x = mvs[0].dx + mvs[1].dx + mvs[2].dx + mvs[3].dx;
            let y = mvs[0].dy + mvs[1].dy + mvs[2].dy + mvs[3].dy;
            &&& -5 <= 8 * c.dx - x <= 5
            &&& -5 <= 8 * c.dy - y <= 5
            &&& c.dx % 2 == 0 <==> x % 16 <= 2 || x % 16 >= 14
            &&& c.dy % 2 == 0 <==> y % 16 <= 2 || y % 16 >= 14
        }),
{
    lemma_eighth(mvs[0].dx + mvs[1].dx + mvs[2].dx + mvs[3].dx);
    lemma_eighth(mvs[0].dy + mvs[1].dy + mvs[2].dy + mvs[3].dy);
}

/// An eighth of a sum.
proof fn lemma_eighth(sum: int)
    requires
        -256 <= sum <= 256,
    ensures
        -5 <= 8 * motion::chroma_component_of_sum(sum) - sum <= 5,
        motion::chroma_component_of_sum(sum) % 2 == 0 <==> sum % 16 <= 2 || sum % 16 >= 14,
        -64 <= motion::chroma_component_of_sum(sum) <= 64,
{
}

/// A macroblock's vector counts in the prediction of others.
pub open spec fn counts(e: grid::Entry, segment: u32) -> bool {
    !e.not_coded && !e.intra && e.segment == segment
}

/// A vector is predicted from the macroblocks to the left, above, and above to
/// the right: where two of the three agree, the third does not matter.
pub proof fn two_equal_neighbours_decide(
    g: Seq<grid::Entry>,
    cols: int,
    col: int,
    row: int,
    gob_top_row: int,
    gob_header_present: bool,
    pb_frames: bool,
    segment: u32,
)
    requires
        0 < col < cols - 1,
        0 < row,
        !gob_header_present || gob_top_row < row,
        counts(g[row * cols + (col - 1)], segment),
        counts(g[(row - 1) * cols + col], segment),
        counts(g[(row - 1) * cols + (col + 1)], segment),
    ensures
        ({
            let p = grid::predictor(
                g,
                cols,
                col,
                row,
                gob_top_row,
                gob_header_present,
                pb_frames,
                segment,
            );
            let left = g[row * cols + (col - 1)].mv;
            let above = g[(row - 1) * cols + col].mv;
            let above_right = g[(row - 1) * cols + (col + 1)].mv;
            &&& left == above ==> p == left
            &&& above == above_right ==> p == above
            &&& left == above_right ==> p == left
            &&& left.dx <= above.dx <= above_right.dx ==> p.dx == above.dx
            &&& above.dx <= left.dx <= above_right.dx ==> p.dx == left.dx
            &&& left.dx <= above_right.dx <= above.dx ==> p.dx == above_right.dx
            &&& left.dy <= above.dy <= above_right.dy ==> p.dy == above.dy
            &&& above.dy <= left.dy <= above_right.dy ==> p.dy == left.dy
            &&& left.dy <= above_right.dy <= above.dy ==> p.dy == above_right.dy
        }),
{
    assert(row * cols + col - 1 == row * cols + (col - 1));
    assert((row - 1) * cols + col + 1 == (row - 1) * cols + (col + 1));
}

/// In the first row of a picture, of a group of blocks with a header, or of a
/// segment, the left neighbour alone predicts; the first macroblock there has no
/// predictor.
pub proof fn the_left_neighbour_predicts_first_rows(
    g: Seq<grid::Entry>,
    cols: int,
    col: int,
    row: int,
    gob_top_row: int,
    gob_header_present: bool,
    pb_frames: bool,
    segment: u32,
)
    requires
        0 <= col < cols,
        0 <= row,
        row == 0 || gob_header_present && gob_top_row == row || g[(row - 1) * cols + col].segment
            != segment,
    ensures
        ({
            let p = grid::predictor(
                g,
                cols,
                col,
                row,
                gob_top_row,
                gob_header_present,
                pb_frames,
                segment,
            );
            let left = g[row * cols + (col - 1)];
            &&& col == 0 ==> p == (MotionVector { dx: 0, dy: 0 })
            &&& col > 0 && counts(left, segment) ==> p == left.mv
            &&& col > 0 && (left.not_coded || left.segment != segment) ==> p == (MotionVector {
                dx: 0,
                dy: 0,
            })
            &&& col > 0 && left.intra && !pb_frames ==> p == (MotionVector { dx: 0, dy: 0 })
        }),
{
    assert(row * cols + col - 1 == row * cols + (col - 1));
}

/// In the first column two candidates are left beside zero, in the last one
/// likewise: where they agree, they predict. Where one of them does not count,
/// nothing does.
pub proof fn outer_columns_count_as_zero(
    g: Seq<grid::Entry>,
    cols: int,
    col: int,
    row: int,
    gob_top_row: int,
    gob_header_present: bool,
    segment: u32,
)
    requires
        0 <= col < cols,
        1 < cols,
        0 < row,
        !gob_header_present || gob_top_row < row,
        g[(row - 1) * cols + col].segment == segment,
    ensures
        ({
            let p = grid::predictor(
                g,
                cols,
                col,
                row,
                gob_top_row,
                gob_header_present,
                false,
                segment,
            );
            let left = g[row * cols + (col - 1)];
            let above = g[(row - 1) * cols + col];
            let above_right = g[(row - 1) * cols + (col + 1)];
            let zero = MotionVector { dx: 0, dy: 0 };
            &&& col == 0 && counts(above, segment) && counts(above_right, segment) && above.mv
                == above_right.mv ==> p == above.mv
            &&& col == 0 && !counts(above, segment) ==> p == zero
            &&& col == cols - 1 && counts(left, segment) && counts(above, segment) && above.mv
                == left.mv ==> p == above.mv
            &&& col == cols - 1 && (!counts(left, segment) || !counts(above, segment)) ==> p == zero
        }),
{
    assert(row * cols + col - 1 == row * cols + (col - 1));
    assert((row - 1) * cols + col + 1 == (row - 1) * cols + (col + 1));
}

/// Of four vectors, the first is predicted from the blocks that touch it in the
/// macroblocks to the left, above and above to the right; where two of the three
/// agree, they decide.
pub proof fn first_of_four_is_predicted_from_the_blocks_around(
    g: Seq<grid::Entry>,
    cols: int,
    col: int,
    row: int,
    mvds: Seq<Mvd>,
)
    requires
        0 < col < cols - 1,
        0 < row,
        counts(g[row * cols + (col - 1)], g[row * cols + (col - 1)].segment),
        counts(g[(row - 1) * cols + col], g[(row - 1) * cols + col].segment),
        counts(g[(row - 1) * cols + (col + 1)], g[(row - 1) * cols + (col + 1)].segment),
        mvds.len() == 4,
    ensures
        ({
            let v = predictions::four_vectors(
                grid::around(g, cols, col, row),
                false,
                false,
                false,
                mvds,
            );
            let left = g[row * cols + (col - 1)].mvs4;
            let above = g[(row - 1) * cols + col].mvs4;
            let above_right = g[(row - 1) * cols + (col + 1)].mvs4;
            let zero = MotionVector { dx: 0, dy: 0 };
            &&& v.len() == 4
            &&& left[1] == above[2] ==> v[0] == motion::reconstructed(false, left[1], mvds[0])
            &&& left[1] == above_right[2] ==> v[0] == motion::reconstructed(
                false,
                left[1],
                mvds[0],
            )
            &&& above[2] == above_right[2] ==> v[0] == motion::reconstructed(
                false,
                above[2],
                mvds[0],
            )
            &&& above[3] == above_right[2] ==> v[1] == motion::reconstructed(
                false,
                above[3],
                mvds[1],
            )
            &&& above[3] == zero || above_right[2] == zero ==> v[1] == motion::reconstructed(
                false,
                zero,
                mvds[1],
            )
            &&& v[2] == motion::reconstructed(false, zero, mvds[2])
            &&& v[3] == motion::reconstructed(false, zero, mvds[3])
        }),
{
    assert(row * cols + col - 1 == row * cols + (col - 1));
    assert((row - 1) * cols + col + 1 == (row - 1) * cols + (col + 1));
}

/// The vector of the luma block in column `x` and row `y` of all luma blocks of a
/// picture; those of the macroblock at (`col`, `row`) are at hand in `mvs`.
pub open spec fn vector_of_block(
    g: Seq<grid::Entry>,
    cols: int,
    col: int,
    row: int,
    mvs: Seq<MotionVector>,
    x: int,
    y: int,
) -> MotionVector {
    let n = 2 * (y % 2) + x % 2;
    if x / 2 == col && y / 2 == row {
        mvs[n]
    } else {
        g[(y / 2) * cols + x / 2].mvs4[n]
    }
}

/// The block of a macroblock in column `x` and row `y` of its four.
pub open spec fn block_at(x: int, y: int) -> LumaBlockIndex {
    if y == 0 {
        if x == 0 {
            LumaBlockIndex::B1
        } else {
            LumaBlockIndex::B2
        }
    } else {
        if x == 0 {
            LumaBlockIndex::B3
        } else {
            LumaBlockIndex::B4
        }
    }
}

/// Overlapped prediction takes the vectors of the luma blocks that touch a block
/// above, to the left and to the right, in whichever macroblock they are. Below,
/// it takes that of the same macroblock's block, and beneath the macroblock the
/// block's own.
pub proof fn overlapping_vectors_are_those_of_touching_blocks(
    g: Seq<grid::Entry>,
    cols: int,
    col: int,
    row: int,
    mvs: Seq<MotionVector>,
    bx: int,
    by: int,
)
    requires
        0 < col < cols - 1,
        0 < row,
        0 <= bx < 2,
        0 <= by < 2,
        !g[row * cols + (col - 1)].not_coded && !g[row * cols + (col - 1)].intra,
        !g[row * cols + (col + 1)].not_coded && !g[row * cols + (col + 1)].intra,
        !g[(row - 1) * cols + col].not_coded && !g[(row - 1) * cols + col].intra,
    ensures
        ({
            let (above, below, left, right) = grid::remotes(
                block_at(bx, by),
                mvs,
                predictions::neighbour(g, cols, col, row - 1),
                predictions::neighbour(g, cols, col - 1, row),
                predictions::neighbour(g, cols, col + 1, row),
                false,
                false,
                false,
            );
            let own = mvs[2 * by + bx];
            let x = 2 * col + bx;
            let y = 2 * row + by;
            &&& motion::resolved(above, own) == vector_of_block(g, cols, col, row, mvs, x, y - 1)
            &&& motion::resolved(left, own) == vector_of_block(g, cols, col, row, mvs, x - 1, y)
            &&& motion::resolved(right, own) == vector_of_block(g, cols, col, row, mvs, x + 1, y)
            &&& by == 0 ==> motion::resolved(below, own) == vector_of_block(
                g,
                cols,
                col,
                row,
                mvs,
                x,
                y + 1,
            )
            &&& by == 1 ==> motion::resolved(below, own) == own
        }),
{
    assert(bx == 0 || bx == 1);
    assert(by == 0 || by == 1);
}

/// In overlapped prediction a neighbour that was skipped counts with the zero
/// vector, and one that is INTRA, or outside the picture, with the block's own.
pub proof fn neighbours_without_vectors_overlap(e: grid::Entry, own: MotionVector, b: LumaBlockIndex)
    ensures
        e.not_coded ==> motion::resolved(grid::remote(Some(e), false, b), own) == (MotionVector {
            dx: 0,
            dy: 0,
        }),
        !e.not_coded && e.intra ==> motion::resolved(grid::remote(Some(e), false, b), own) == own,
        motion::resolved(grid::remote(Some(e), true, b), own) == own,
        motion::resolved(grid::remote(None, false, b), own) == own,
{
}

/// A difference that is sent for the B-macroblock moves the forward vector of each luma
/// block by just that much, and where a component of it is not 0, the backward vector
/// leads from there to where the P-vector ends.
pub proof fn sent_differences_move_b_vectors(
    mb: H263Macroblock,
    diff: Mvd,
    mvs4: Seq<MotionVector>,
    left: Option<MotionVector>,
    pb: PbTimes,
    i: int,
)
    requires
        0 <= i < 4,
        mvs4[i].in_range(),
        motion::mvd_in_range(diff),
        pb.wf(),
        pb.trb < pb.trd,
        !pb.annex_m,
        mb.mvdb == Some(diff),
    ensures
        ({
            let s = b_part::b_source(mb, mvs4, left, pb);
            let without = b_part::b_source(
                H263Macroblock { mvdb: None, ..mb },
                mvs4,
                left,
                pb,
            );
            let f = s->forward[i];
            let b = s->backward[i];
            &&& s is Both && without is Both
            &&& f.dx - without->forward[i].dx == diff.dx_half
            &&& f.dy - without->forward[i].dy == diff.dy_half
            &&& diff.dx_half != 0 ==> f.dx - b.dx == mvs4[i].dx
            &&& diff.dy_half != 0 ==> f.dy - b.dy == mvs4[i].dy
            &&& diff.dx_half == 0 ==> b.dx == without->backward[i].dx
            &&& diff.dy_half == 0 ==> b.dy == without->backward[i].dy
        }),
{
    let trb = pb.trb as int;
    let trd = pb.trd as int;
    let x = mvs4[i].dx as int;
    let y = mvs4[i].dy as int;
    b_vectors_span_the_motion(x, trb, trd);
    b_vectors_span_the_motion(y, trb, trd);
}

} // verus!
