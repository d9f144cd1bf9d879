//! Laws of a macroblock's blocks with Advanced INTRA Coding.

use crate::block_layer;
use crate::laws::macroblocks;
use crate::macroblock::IntraMode;
use crate::picture::aic_blocks;
use crate::picture::aic_state;
use crate::picture::aic_state::AicPlane;
use crate::picture::blocks;
use crate::picture::frame;
use crate::residual;
use crate::scal_upsample;
use vstd::prelude::*;

verus! {

/// The block at column `bx` and row `by` of a plane stands between the bits `from` and
/// `to`. Its coefficients are what its levels make of the block above and the block to
/// the left, and are remembered; its samples are what the transform makes of them.
pub open spec fn advanced_between(
    s: Seq<bool>,
    from: int,
    to: int,
    coded: bool,
    mode: IntraMode,
    quant: int,
    segment: u32,
    known: AicPlane,
    bx: int,
    by: int,
    i: int,
    j: int,
    value: u8,
) -> bool {
    let k = by * known.cols + bx;
    &&& block_layer::aic_block_at(s, from, coded) is Ok
    &&& block_layer::aic_block_at(s, from, coded)->Ok_0.1 == to
    &&& known.meta[k].intra
    &&& known.meta[k].segment == segment
    &&& known.rec[k] == residual::aic_coefficients(
        block_layer::aic_block_at(s, from, coded)->Ok_0.0.levels,
        mode,
        quant,
        known.above(bx, by, segment),
        known.left(bx, by, segment),
    )
    &&& value == residual::plain_samples(residual::as_ints(known.rec[k]))[8 * j + i]
}

/// Two blocks of a plane have one index only where they are one.
proof fn lemma_indices(cols: int, x: int, y: int, u: int, v: int)
    requires
        0 <= x < cols,
        0 <= u < cols,
        0 <= y,
        0 <= v,
        y * cols + x == v * cols + u,
    ensures
        x == u,
        y == v,
{
    scal_upsample::lemma_position(y, x, cols, y + 1);
    scal_upsample::lemma_position(v, u, cols, v + 1);
}

/// The coefficients of a block, by what is known before it.
spec fn made(
    s: Seq<bool>,
    from: int,
    coded: bool,
    mode: IntraMode,
    quant: int,
    segment: u32,
    known: AicPlane,
    bx: int,
    by: int,
) -> (AicPlane, int) {
    let b = block_layer::aic_block_at(s, from, coded)->Ok_0;
    let c = residual::aic_coefficients(
        b.0.levels,
        mode,
        quant,
        known.above(bx, by, segment),
        known.left(bx, by, segment),
    );
    (known.with_intra(by * known.cols + bx, c, segment), b.1)
}

/// What is known behind a block holds it.
proof fn lemma_made(
    s: Seq<bool>,
    from: int,
    coded: bool,
    mode: IntraMode,
    quant: int,
    segment: u32,
    known: AicPlane,
    rows: int,
    bx: int,
    by: int,
)
    requires
        known.has_rows(rows),
        0 <= bx < known.cols,
        0 <= by < rows,
        block_layer::aic_block_at(s, from, coded) is Ok,
    ensures
        ({
            let (after, to) = made(s, from, coded, mode, quant, segment, known, bx, by);
            let k = by * known.cols + bx;
            &&& 0 <= k < known.rec.len()
            &&& after.cols == known.cols
            &&& after.rec.len() == known.rec.len() && after.meta.len() == known.meta.len()
            &&& after.meta[k].intra && after.meta[k].segment == segment
            &&& after.rec[k] == residual::aic_coefficients(
                block_layer::aic_block_at(s, from, coded)->Ok_0.0.levels,
                mode,
                quant,
                after.above(bx, by, segment),
                after.left(bx, by, segment),
            )
        }),
{
    let cols = known.cols;
    scal_upsample::lemma_position(by, bx, cols, rows);
    if by > 0 {
        scal_upsample::lemma_position(by - 1, bx, cols, rows);
        if (by - 1) * cols + bx == by * cols + bx {
            lemma_indices(cols, bx, by - 1, bx, by);
        }
    }
    if bx > 0 {
        scal_upsample::lemma_position(by, bx - 1, cols, rows);
    }
}

/// A block is remembered with the coefficients that its samples are made of, and put at
/// its own place in the plane.
pub proof fn advanced_blocks_show_where_they_are_remembered(
    s: Seq<bool>,
    at: int,
    plane: Seq<u8>,
    known: AicPlane,
    rows: int,
    bx: int,
    by: int,
    coded: bool,
    mode: IntraMode,
    quant: int,
    segment: u32,
    i: int,
    j: int,
)
    requires
        known.has_rows(rows),
        plane.len() == (8 * known.cols) * (8 * rows),
        0 <= bx < known.cols,
        0 <= by < rows,
        0 <= i < 8,
        0 <= j < 8,
        aic_blocks::then_aic_block(
            Ok(((plane, known), at)),
            s,
            8 * known.cols,
            bx,
            by,
            coded,
            mode,
            quant,
            segment,
        ) is Ok,
    ensures
        ({
            let ((after, k), end) = aic_blocks::then_aic_block(
                Ok(((plane, known), at)),
                s,
                8 * known.cols,
                bx,
                by,
                coded,
                mode,
                quant,
                segment,
            )->Ok_0;
            &&& k.cols == known.cols
            &&& after.len() == plane.len()
            &&& advanced_between(
                s,
                at,
                end,
                coded,
                mode,
                quant,
                segment,
                k,
                bx,
                by,
                i,
                j,
                after[(8 * by + j) * (8 * known.cols) + (8 * bx + i)],
            )
        }),
{
    reveal(aic_blocks::then_aic_block);
    lemma_made(s, at, coded, mode, quant, segment, known, rows, bx, by);
    let c = made(s, at, coded, mode, quant, segment, known, bx, by).0.rec[by * known.cols + bx];
    let stride = 8 * known.cols;
    assert((8 * by + 8) * stride <= stride * (8 * rows)) by (nonlinear_arith)
        requires
            by + 1 <= rows,
            0 <= stride,
    ;
    macroblocks::lemma_put(
        plane,
        stride,
        8 * bx,
        8 * by,
        residual::plain_samples(residual::as_ints(c)),
        i,
        j,
    );
}

/// In a macroblock with Advanced INTRA Coding the chroma blocks come behind the luma
/// blocks, Cb before Cr, each in its own plane and predicted from blocks of that plane;
/// the luma blocks come row by row.
pub proof fn advanced_blocks_come_in_order(
    s: Seq<bool>,
    at: int,
    p: frame::Planes,
    known: aic_state::AicPicture,
    cols: int,
    rows: int,
    col: int,
    row: int,
    coded: Seq<bool>,
    mode: IntraMode,
    quant: int,
    segment: u32,
)
    requires
        blocks::has_macroblocks(p, cols, rows),
        known.has_size(cols, rows),
        0 <= col < cols,
        0 <= row < rows,
        coded.len() == 6,
        aic_blocks::aic_macroblock_at(
            s,
            at,
            p,
            known,
            col,
            row,
            coded,
            mode,
            quant,
            segment,
        ) is Ok,
    ensures
        ({
            let ((q, k), end) = aic_blocks::aic_macroblock_at(
                s,
                at,
                p,
                known,
                col,
                row,
                coded,
                mode,
                quant,
                segment,
            )->Ok_0;
            let w = p.width;
            let x = 2 * col;
            let y = 2 * row;
            let b0 = aic_blocks::then_aic_block(
                Ok(((p.y, known.luma), at)),
                s,
                w,
                x,
                y,
                coded[0],
                mode,
                quant,
                segment,
            );
            let b1 = aic_blocks::then_aic_block(
                b0,
                s,
                w,
                x + 1,
                y,
                coded[1],
                mode,
                quant,
                segment,
            );
            let b2 = aic_blocks::then_aic_block(
                b1,
                s,
                w,
                x,
                y + 1,
                coded[2],
                mode,
                quant,
                segment,
            );
            let b3 = aic_blocks::then_aic_block(
                b2,
                s,
                w,
                x + 1,
                y + 1,
                coded[3],
                mode,
                quant,
                segment,
            );
            let cb = aic_blocks::then_aic_block(
                Ok(((p.cb, known.cb), b3->Ok_0.1)),
                s,
                w / 2,
                col,
                row,
                coded[4],
                mode,
                quant,
                segment,
            );
            let cr = aic_blocks::then_aic_block(
                Ok(((p.cr, known.cr), cb->Ok_0.1)),
                s,
                w / 2,
                col,
                row,
                coded[5],
                mode,
                quant,
                segment,
            );
            &&& b3 is Ok && cb is Ok && cr is Ok
            &&& (q.y, k.luma) == b3->Ok_0.0
            &&& (q.cb, k.cb) == cb->Ok_0.0
            &&& (q.cr, k.cr) == cr->Ok_0.0
            &&& end == cr->Ok_0.1
            &&& q.width == w && q.height == p.height
        }),
{
}

} // verus!
