//! The blocks of a macroblock, from the stream into the planes.

use super::frame;
use super::frame::{blit_block, YuvFrame};
use crate::b_picture;
use crate::bits;
use crate::block::H263Block;
use crate::block_layer;
use crate::block_layer::parse_block;
use crate::error::Error;
use crate::residual;
use crate::residual::{reconstruct_inter_block_with_prediction, reconstruct_intra_block};
use oxideav_core::bits::BitReader;
use vstd::prelude::*;

verus! {

/// A plane as far as it has been decoded, and the bit behind that.
pub type PlaneStep = Result<(Seq<u8>, int), Error>;

/// Three planes as far as they have been decoded, and the bit behind that.
pub type PlanesStep = Result<(frame::Planes, int), Error>;

/// The planes consist of `cols` by `rows` macroblocks.
pub open spec fn has_macroblocks(p: frame::Planes, cols: int, rows: int) -> bool {
    &&& p.wf()
    &&& p.width == 16 * cols
    &&& p.height == 16 * rows
}

/// The column of luma block `blk` of the macroblock in column `col`.
pub open spec fn luma_x(col: int, blk: int) -> int {
    16 * col + 8 * (blk % 2)
}

/// The row of luma block `blk` of the macroblock in row `row`.
pub open spec fn luma_y(row: int, blk: int) -> int {
    16 * row + 8 * (blk / 2)
}

/// A luma block of a macroblock lies inside its plane.
pub proof fn lemma_luma_place(cols: int, rows: int, col: int, row: int, blk: int)
    requires
        0 <= col < cols,
        0 <= row < rows,
        0 <= blk < 4,
    ensures
        luma_x(col, blk) + 8 <= 16 * cols,
        (luma_y(row, blk) + 8) * (16 * cols) <= (16 * cols) * (16 * rows),
{
    let y = luma_y(row, blk);
    assert(y + 8 <= 16 * rows);
    assert((y + 8) * (16 * cols) <= (16 * cols) * (16 * rows)) by (nonlinear_arith)
        requires
            y + 8 <= 16 * rows,
            0 <= 16 * cols,
    ;
}

/// A chroma block of a macroblock lies inside its plane.
pub proof fn lemma_chroma_place(cols: int, rows: int, col: int, row: int)
    requires
        0 <= col < cols,
        0 <= row < rows,
    ensures
        8 * col + 8 <= 8 * cols,
        (8 * row + 8) * (8 * cols) <= (8 * cols) * (8 * rows),
{
    assert((8 * row + 8) * (8 * cols) <= (8 * cols) * (8 * rows)) by (nonlinear_arith)
        requires
            row + 1 <= rows,
            0 <= cols,
    ;
}

/// Then an INTRA block.
#[verifier::opaque]
pub open spec fn then_intra_block(
    r: PlaneStep,
    s: Seq<bool>,
    stride: int,
    x: int,
    y: int,
    has_ac: bool,
    quant: int,
) -> PlaneStep {
    match r {
        Err(e) => Err(e),
        Ok((plane, at)) => match block_layer::block_at(s, at, true, has_ac) {
            Err(e) => Err(e),
            Ok((l, end)) => Ok(
                (
                    frame::blitted(plane, stride, x, y, residual::intra_samples(l.levels, quant)),
                    end,
                ),
            ),
        },
    }
}

/// Then a block that adds to a prediction, or the prediction alone.
#[verifier::opaque]
pub open spec fn then_predicted_block(
    r: PlaneStep,
    s: Seq<bool>,
    stride: int,
    x: int,
    y: int,
    prediction: Seq<u8>,
    coded: bool,
    quant: int,
) -> PlaneStep {
    match r {
        Err(e) => Err(e),
        Ok((plane, at)) => if coded {
            match block_layer::block_at(s, at, false, true) {
                Err(e) => Err(e),
                Ok((l, end)) => Ok(
                    (
                        frame::blitted(
                            plane,
                            stride,
                            x,
                            y,
                            residual::inter_samples(l.levels, quant, prediction),
                        ),
                        end,
                    ),
                ),
            }
        } else {
            Ok((frame::blitted(plane, stride, x, y, prediction), at))
        },
    }
}

/// What is wrong with one block is wrong with what follows.
proof fn lemma_errors_stay()
    ensures
        forall|e: Error, s: Seq<bool>, stride: int, x: int, y: int, has_ac: bool, quant: int|
            #[trigger] then_intra_block(Err(e), s, stride, x, y, has_ac, quant) == Err::<
                (Seq<u8>, int),
                Error,
            >(e),
        forall|
            e: Error,
            s: Seq<bool>,
            stride: int,
            x: int,
            y: int,
            prediction: Seq<u8>,
            coded: bool,
            quant: int,
        |
            #[trigger] then_predicted_block(Err(e), s, stride, x, y, prediction, coded, quant)
                == Err::<(Seq<u8>, int), Error>(e),
{
    reveal(then_intra_block);
    reveal(then_predicted_block);
}

/// Bit `blk` of a pattern of luma blocks, the first block's most significant.
pub open spec fn luma_bit(cbpy: int, blk: int) -> bool {
    if blk == 0 {
        cbpy / 8 % 2 == 1
    } else if blk == 1 {
        cbpy / 4 % 2 == 1
    } else if blk == 2 {
        cbpy / 2 % 2 == 1
    } else {
        cbpy % 2 == 1
    }
}

/// Which of a macroblock's six blocks have coefficients, by the patterns of an
/// INTRA macroblock.
pub open spec fn intra_pattern(cbpy: int, cbpc: int) -> Seq<bool> {
    seq![
        luma_bit(cbpy, 0),
        luma_bit(cbpy, 1),
        luma_bit(cbpy, 2),
        luma_bit(cbpy, 3),
        cbpc / 2 % 2 == 1,
        cbpc % 2 == 1,
    ]
}

/// Which of a macroblock's six blocks have coefficients in a macroblock that is
/// predicted: the luma pattern counts the other way round.
pub open spec fn inter_pattern(cbpy: int, cbpc: int) -> Seq<bool> {
    seq![
        !luma_bit(cbpy, 0),
        !luma_bit(cbpy, 1),
        !luma_bit(cbpy, 2),
        !luma_bit(cbpy, 3),
        cbpc / 2 % 2 == 1,
        cbpc % 2 == 1,
    ]
}

/// Which of a B-macroblock's six blocks have coefficients.
pub open spec fn b_pattern(cbpb: int) -> Seq<bool> {
    Seq::new(6, |i: int| b_picture::b_block_coded(cbpb, i + 1))
}

/// The luma blocks of an INTRA macroblock at bit `at`.
pub open spec fn intra_luma_at(
    s: Seq<bool>,
    at: int,
    plane: Seq<u8>,
    stride: int,
    col: int,
    row: int,
    coded: Seq<bool>,
    quant: int,
) -> PlaneStep {
    let r0: PlaneStep = Ok((plane, at));
    let r1 = then_intra_block(r0, s, stride, luma_x(col, 0), luma_y(row, 0), coded[0], quant);
    let r2 = then_intra_block(r1, s, stride, luma_x(col, 1), luma_y(row, 1), coded[1], quant);
    let r3 = then_intra_block(r2, s, stride, luma_x(col, 2), luma_y(row, 2), coded[2], quant);
    then_intra_block(r3, s, stride, luma_x(col, 3), luma_y(row, 3), coded[3], quant)
}

/// The luma blocks of a predicted macroblock at bit `at`.
pub open spec fn predicted_luma_at(
    s: Seq<bool>,
    at: int,
    plane: Seq<u8>,
    stride: int,
    col: int,
    row: int,
    pred: Seq<Seq<u8>>,
    coded: Seq<bool>,
    quant: int,
) -> PlaneStep {
    let r0: PlaneStep = Ok((plane, at));
    let r1 = then_predicted_block(
        r0,
        s,
        stride,
        luma_x(col, 0),
        luma_y(row, 0),
        pred[0],
        coded[0],
        quant,
    );
    let r2 = then_predicted_block(
        r1,
        s,
        stride,
        luma_x(col, 1),
        luma_y(row, 1),
        pred[1],
        coded[1],
        quant,
    );
    let r3 = then_predicted_block(
        r2,
        s,
        stride,
        luma_x(col, 2),
        luma_y(row, 2),
        pred[2],
        coded[2],
        quant,
    );
    then_predicted_block(
        r3,
        s,
        stride,
        luma_x(col, 3),
        luma_y(row, 3),
        pred[3],
        coded[3],
        quant,
    )
}

/// The six blocks of an INTRA macroblock at bit `at`.
pub open spec fn intra_macroblock_at(
    s: Seq<bool>,
    at: int,
    p: frame::Planes,
    col: int,
    row: int,
    coded: Seq<bool>,
    quant: int,
) -> PlanesStep {
    match intra_luma_at(s, at, p.y, p.width, col, row, coded, quant) {
        Err(e) => Err(e),
        Ok((y, p1)) => match then_intra_block(
            Ok((p.cb, p1)),
            s,
            p.width / 2,
            8 * col,
            8 * row,
            coded[4],
            quant,
        ) {
            Err(e) => Err(e),
            Ok((cb, p2)) => match then_intra_block(
                Ok((p.cr, p2)),
                s,
                p.width / 2,
                8 * col,
                8 * row,
                coded[5],
                quant,
            ) {
                Err(e) => Err(e),
                Ok((cr, end)) => Ok((frame::Planes { y, cb, cr, ..p }, end)),
            },
        },
    }
}

/// The six blocks of a predicted macroblock at bit `at`.
pub open spec fn predicted_macroblock_at(
    s: Seq<bool>,
    at: int,
    p: frame::Planes,
    col: int,
    row: int,
    pred: Seq<Seq<u8>>,
    coded: Seq<bool>,
    quant: int,
) -> PlanesStep {
    match predicted_luma_at(s, at, p.y, p.width, col, row, pred, coded, quant) {
        Err(e) => Err(e),
        Ok((y, p1)) => match then_predicted_block(
            Ok((p.cb, p1)),
            s,
            p.width / 2,
            8 * col,
            8 * row,
            pred[4],
            coded[4],
            quant,
        ) {
            Err(e) => Err(e),
            Ok((cb, p2)) => match then_predicted_block(
                Ok((p.cr, p2)),
                s,
                p.width / 2,
                8 * col,
                8 * row,
                pred[5],
                coded[5],
                quant,
            ) {
                Err(e) => Err(e),
                Ok((cr, end)) => Ok((frame::Planes { y, cb, cr, ..p }, end)),
            },
        },
    }
}

/// `res` and the plane `after` are what `outcome` tells of.
pub open spec fn plane_read(
    outcome: PlaneStep,
    res: Result<(), Error>,
    after: Seq<u8>,
    r0: BitReader,
    r1: BitReader,
) -> bool {
    &&& bits::moved_on(r0, r1)
    &&& match outcome {
        Ok((plane, end)) => res is Ok && after == plane && bits::bits_read(r1) == end,
        Err(e) => res == Err::<(), Error>(e),
    }
}

/// `res` and the planes `after` are what `outcome` tells of.
pub open spec fn planes_read(
    outcome: PlanesStep,
    res: Result<(), Error>,
    after: frame::Planes,
    r0: BitReader,
    r1: BitReader,
) -> bool {
    &&& bits::moved_on(r0, r1)
    &&& match outcome {
        Ok((planes, end)) => res is Ok && after == planes && bits::bits_read(r1) == end,
        Err(e) => res == Err::<(), Error>(e),
    }
}

/// Read an INTRA block into a plane.
fn decode_intra_block(
    r: &mut BitReader<'_>,
    plane: &mut Vec<u8>,
    stride: usize,
    x: usize,
    y: usize,
    has_ac: bool,
    quant: u8,
) -> (res: Result<(), Error>)
    requires
        1 <= quant <= 31,
        x + 8 <= stride,
        (y + 8) * stride <= old(plane)@.len(),
    ensures
        plane_read(
            then_intra_block(
                Ok((old(plane)@, bits::bits_read(*old(r)) as int)),
                bits::stream(*old(r)),
                stride as int,
                x as int,
                y as int,
                has_ac,
                quant as int,
            ),
            res,
            final(plane)@,
            *old(r),
            *final(r),
        ),
        final(plane)@.len() == old(plane)@.len(),
{
    proof {
        reveal(then_intra_block);
    }
    let block: H263Block = parse_block(r, true, has_ac)?;
    let samples: [u8; 64] = reconstruct_intra_block(&block, quant);
    blit_block(plane.as_mut_slice(), stride, x, y, &samples);
    Ok(())
}

/// Put a predicted block into a plane, with what the stream adds to it.
fn decode_predicted_block(
    r: &mut BitReader<'_>,
    plane: &mut Vec<u8>,
    stride: usize,
    x: usize,
    y: usize,
    prediction: &[u8; 64],
    coded: bool,
    quant: u8,
) -> (res: Result<(), Error>)
    requires
        1 <= quant <= 31,
        x + 8 <= stride,
        (y + 8) * stride <= old(plane)@.len(),
    ensures
        plane_read(
            then_predicted_block(
                Ok((old(plane)@, bits::bits_read(*old(r)) as int)),
                bits::stream(*old(r)),
                stride as int,
                x as int,
                y as int,
                prediction@,
                coded,
                quant as int,
            ),
            res,
            final(plane)@,
            *old(r),
            *final(r),
        ),
        final(plane)@.len() == old(plane)@.len(),
{
    proof {
        reveal(then_predicted_block);
    }
    if coded {
        let block: H263Block = parse_block(r, false, true)?;
        let samples: [u8; 64] = reconstruct_inter_block_with_prediction(&block, quant, prediction);
        blit_block(plane.as_mut_slice(), stride, x, y, &samples);
    } else {
        blit_block(plane.as_mut_slice(), stride, x, y, prediction);
    }
    Ok(())
}

/// Predictions of six blocks as sequences.
pub open spec fn six(pred: Seq<[u8; 64]>) -> Seq<Seq<u8>> {
    pred.map_values(|b: [u8; 64]| b@)
}

/// The size of a frame is what its macroblocks make it.
proof fn lemma_sizes(p: frame::Planes, cols: int, rows: int)
    requires
        has_macroblocks(p, cols, rows),
    ensures
        p.y.len() == (16 * cols) * (16 * rows),
        p.cb.len() == (8 * cols) * (8 * rows),
        p.cr.len() == (8 * cols) * (8 * rows),
        p.width / 2 == 8 * cols,
{
}

/// The luma blocks of a macroblock lie inside their plane.
pub open spec fn luma_fits(len: nat, stride: int, col: int, row: int) -> bool {
    &&& 0 <= col
    &&& 0 <= row
    &&& 16 * col + 16 <= stride
    &&& (16 * row + 16) * stride <= len
}

/// The upper blocks of a macroblock lie inside where the lower ones do.
proof fn lemma_upper(len: int, stride: int, row: int)
    requires
        0 <= stride,
        (16 * row + 16) * stride <= len,
    ensures
        (16 * row + 8) * stride <= len,
{
    assert((16 * row + 8) * stride <= (16 * row + 16) * stride) by (nonlinear_arith)
        requires
            0 <= stride,
    ;
}

/// Read the luma blocks of an INTRA macroblock.
#[verifier::spinoff_prover]
fn decode_intra_luma(
    r: &mut BitReader<'_>,
    plane: &mut Vec<u8>,
    stride: usize,
    col: usize,
    row: usize,
    coded: &[bool; 6],
    quant: u8,
) -> (res: Result<(), Error>)
    requires
        luma_fits(old(plane)@.len(), stride as int, col as int, row as int),
        16 * row + 16 <= usize::MAX,
        1 <= quant <= 31,
    ensures
        plane_read(
            intra_luma_at(
                bits::stream(*old(r)),
                bits::bits_read(*old(r)) as int,
                old(plane)@,
                stride as int,
                col as int,
                row as int,
                coded@,
                quant as int,
            ),
            res,
            final(plane)@,
            *old(r),
            *final(r),
        ),
        final(plane)@.len() == old(plane)@.len(),
{
    proof {
        lemma_errors_stay();
        lemma_upper(plane@.len() as int, stride as int, row as int);
    }
    let x: usize = 16 * col;
    let y: usize = 16 * row;
    decode_intra_block(r, plane, stride, x, y, coded[0], quant)?;
    decode_intra_block(r, plane, stride, x + 8, y, coded[1], quant)?;
    decode_intra_block(r, plane, stride, x, y + 8, coded[2], quant)?;
    decode_intra_block(r, plane, stride, x + 8, y + 8, coded[3], quant)
}

/// Put the luma blocks of a predicted macroblock into a plane.
#[verifier::spinoff_prover]
fn decode_predicted_luma(
    r: &mut BitReader<'_>,
    plane: &mut Vec<u8>,
    stride: usize,
    col: usize,
    row: usize,
    pred: &[[u8; 64]; 6],
    coded: &[bool; 6],
    quant: u8,
) -> (res: Result<(), Error>)
    requires
        luma_fits(old(plane)@.len(), stride as int, col as int, row as int),
        16 * row + 16 <= usize::MAX,
        1 <= quant <= 31,
    ensures
        plane_read(
            predicted_luma_at(
                bits::stream(*old(r)),
                bits::bits_read(*old(r)) as int,
                old(plane)@,
                stride as int,
                col as int,
                row as int,
                six(pred@),
                coded@,
                quant as int,
            ),
            res,
            final(plane)@,
            *old(r),
            *final(r),
        ),
        final(plane)@.len() == old(plane)@.len(),
{
    proof {
        lemma_errors_stay();
        lemma_upper(plane@.len() as int, stride as int, row as int);
    }
    let x: usize = 16 * col;
    let y: usize = 16 * row;
    decode_predicted_block(r, plane, stride, x, y, &pred[0], coded[0], quant)?;
    decode_predicted_block(r, plane, stride, x + 8, y, &pred[1], coded[1], quant)?;
    decode_predicted_block(r, plane, stride, x, y + 8, &pred[2], coded[2], quant)?;
    decode_predicted_block(r, plane, stride, x + 8, y + 8, &pred[3], coded[3], quant)
}

/// Read an INTRA macroblock into a frame.
#[verifier::spinoff_prover]
pub(crate) fn decode_intra_macroblock(
    r: &mut BitReader<'_>,
    frame: &mut YuvFrame,
    col: usize,
    row: usize,
    coded: &[bool; 6],
    quant: u8,
    Ghost(cols): Ghost<int>,
    Ghost(rows): Ghost<int>,
) -> (res: Result<(), Error>)
    requires
        has_macroblocks(old(frame)@, cols, rows),
        col < cols,
        row < rows,
        1 <= quant <= 31,
    ensures
        planes_read(
            intra_macroblock_at(
                bits::stream(*old(r)),
                bits::bits_read(*old(r)) as int,
                old(frame)@,
                col as int,
                row as int,
                coded@,
                quant as int,
            ),
            res,
            final(frame)@,
            *old(r),
            *final(r),
        ),
        has_macroblocks(final(frame)@, cols, rows),
{
    proof {
        lemma_sizes(frame@, cols, rows);
        lemma_luma_place(cols, rows, col as int, row as int, 3);
        lemma_chroma_place(cols, rows, col as int, row as int);
    }
    let w: usize = frame.luma_width;
    let cw: usize = frame.luma_width / 2;
    decode_intra_luma(r, &mut frame.y, w, col, row, coded, quant)?;
    decode_intra_block(r, &mut frame.cb, cw, 8 * col, 8 * row, coded[4], quant)?;
    decode_intra_block(r, &mut frame.cr, cw, 8 * col, 8 * row, coded[5], quant)?;
    Ok(())
}

/// Read a predicted macroblock into a frame.
#[verifier::spinoff_prover]
pub(crate) fn decode_predicted_macroblock(
    r: &mut BitReader<'_>,
    frame: &mut YuvFrame,
    col: usize,
    row: usize,
    pred: &[[u8; 64]; 6],
    coded: &[bool; 6],
    quant: u8,
    Ghost(cols): Ghost<int>,
    Ghost(rows): Ghost<int>,
) -> (res: Result<(), Error>)
    requires
        has_macroblocks(old(frame)@, cols, rows),
        col < cols,
        row < rows,
        1 <= quant <= 31,
    ensures
        planes_read(
            predicted_macroblock_at(
                bits::stream(*old(r)),
                bits::bits_read(*old(r)) as int,
                old(frame)@,
                col as int,
                row as int,
                six(pred@),
                coded@,
                quant as int,
            ),
            res,
            final(frame)@,
            *old(r),
            *final(r),
        ),
        has_macroblocks(final(frame)@, cols, rows),
{
    proof {
        lemma_sizes(frame@, cols, rows);
        lemma_luma_place(cols, rows, col as int, row as int, 3);
        lemma_chroma_place(cols, rows, col as int, row as int);
    }
    let w: usize = frame.luma_width;
    let cw: usize = frame.luma_width / 2;
    decode_predicted_luma(r, &mut frame.y, w, col, row, pred, coded, quant)?;
    decode_predicted_block(r, &mut frame.cb, cw, 8 * col, 8 * row, &pred[4], coded[4], quant)?;
    decode_predicted_block(r, &mut frame.cr, cw, 8 * col, 8 * row, &pred[5], coded[5], quant)?;
    Ok(())
}

} // verus!
