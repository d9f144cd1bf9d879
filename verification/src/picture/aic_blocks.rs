//! The blocks of a macroblock with Advanced INTRA Coding.

use super::aic_state;
use super::aic_state::{
    aic_chroma_neighbour_above, aic_chroma_neighbour_left, AicBlockMeta, AicState, Neighbour,
};
use super::blocks;
use super::frame;
use super::frame::{blit_block, YuvFrame};
use crate::bits;
use crate::block::H263Block;
use crate::block_layer;
use crate::block_layer::parse_intra_block_aic;
use crate::error::Error;
use crate::macroblock::IntraMode;
use crate::residual;
use crate::residual::{aic_intra_reconstruct_coefficients, samples_of};
use crate::scal_upsample;
use oxideav_core::bits::BitReader;
use vstd::prelude::*;

verus! {

/// A plane and its blocks' coefficients as far as they have been decoded, and
/// the bit behind that.
pub type AicStep = Result<((Seq<u8>, aic_state::AicPlane), int), Error>;

/// Then a block at column `bx` and row `by` of the plane's blocks.
#[verifier::opaque]
pub open spec fn then_aic_block(
    r: AicStep,
    s: Seq<bool>,
    stride: int,
    bx: int,
    by: int,
    coded: bool,
    mode: IntraMode,
    quant: int,
    segment: u32,
) -> AicStep {
    match r {
        Err(e) => Err(e),
        Ok(((plane, known), at)) => match block_layer::aic_block_at(s, at, coded) {
            Err(e) => Err(e),
            Ok((l, end)) => {
                let c = residual::aic_coefficients(
                    l.levels,
                    mode,
                    quant,
                    known.above(bx, by, segment),
                    known.left(bx, by, segment),
                );
                Ok(
                    (
                        (
                            frame::blitted(
                                plane,
                                stride,
                                8 * bx,
                                8 * by,
                                residual::plain_samples(residual::as_ints(c)),
                            ),
                            known.with_intra(by * known.cols + bx, c, segment),
                        ),
                        end,
                    ),
                )
            },
        },
    }
}

/// The luma blocks of a macroblock at bit `at`.
pub open spec fn aic_luma_at(
    s: Seq<bool>,
    at: int,
    plane: Seq<u8>,
    known: aic_state::AicPlane,
    stride: int,
    col: int,
    row: int,
    coded: Seq<bool>,
    mode: IntraMode,
    quant: int,
    segment: u32,
) -> AicStep {
    let x = 2 * col;
    let y = 2 * row;
    let r0: AicStep = Ok(((plane, known), at));
    let r1 = then_aic_block(r0, s, stride, x, y, coded[0], mode, quant, segment);
    let r2 = then_aic_block(r1, s, stride, x + 1, y, coded[1], mode, quant, segment);
    let r3 = then_aic_block(r2, s, stride, x, y + 1, coded[2], mode, quant, segment);
    then_aic_block(r3, s, stride, x + 1, y + 1, coded[3], mode, quant, segment)
}

/// The six blocks of a macroblock at bit `at`.
pub open spec fn aic_macroblock_at(
    s: Seq<bool>,
    at: int,
    p: frame::Planes,
    known: aic_state::AicPicture,
    col: int,
    row: int,
    coded: Seq<bool>,
    mode: IntraMode,
    quant: int,
    segment: u32,
) -> Result<((frame::Planes, aic_state::AicPicture), int), Error> {
    match aic_luma_at(
        s,
        at,
        p.y,
        known.luma,
        p.width,
        col,
        row,
        coded,
        mode,
        quant,
        segment,
    ) {
        Err(e) => Err(e),
        Ok(((y, luma), p1)) => match then_aic_block(
            Ok(((p.cb, known.cb), p1)),
            s,
            p.width / 2,
            col,
            row,
            coded[4],
            mode,
            quant,
            segment,
        ) {
            Err(e) => Err(e),
            Ok(((cb, known_cb), p2)) => match then_aic_block(
                Ok(((p.cr, known.cr), p2)),
                s,
                p.width / 2,
                col,
                row,
                coded[5],
                mode,
                quant,
                segment,
            ) {
                Err(e) => Err(e),
                Ok(((cr, known_cr), end)) => Ok(
                    (
                        (
                            frame::Planes { y, cb, cr, ..p },
                            aic_state::AicPicture { luma, cb: known_cb, cr: known_cr },
                        ),
                        end,
                    ),
                ),
            },
        },
    }
}

/// What is wrong with one block is wrong with what follows.
proof fn lemma_errors_stay()
    ensures
        forall|
            e: Error,
            s: Seq<bool>,
            stride: int,
            bx: int,
            by: int,
            coded: bool,
            mode: IntraMode,
            quant: int,
            segment: u32,
        |
            #[trigger] then_aic_block(Err(e), s, stride, bx, by, coded, mode, quant, segment)
                == Err::<((Seq<u8>, aic_state::AicPlane), int), Error>(e),
{
    reveal(then_aic_block);
}

/// `res`, the plane `after` and the blocks' coefficients `known` are what
/// `outcome` tells of.
pub open spec fn aic_plane_read(
    outcome: AicStep,
    res: Result<(), Error>,
    after: Seq<u8>,
    known: aic_state::AicPlane,
    r0: BitReader,
    r1: BitReader,
) -> bool {
    &&& bits::moved_on(r0, r1)
    &&& match outcome {
        Ok(((plane, k), end)) => res is Ok && after == plane && known == k && bits::bits_read(r1)
            == end,
        Err(e) => res == Err::<(), Error>(e),
    }
}

/// Read a block into a plane.
#[verifier::spinoff_prover]
fn decode_aic_block(
    r: &mut BitReader<'_>,
    plane: &mut Vec<u8>,
    rec: &mut Vec<[i32; 64]>,
    meta: &mut Vec<AicBlockMeta>,
    cols: usize,
    bx: usize,
    by: usize,
    coded: bool,
    mode: IntraMode,
    quant: u8,
    segment: u32,
    Ghost(rows): Ghost<int>,
) -> (res: Result<(), Error>)
    requires
        1 <= quant <= 31,
        bx < cols,
        by < rows,
        8 * cols <= usize::MAX,
        8 * rows <= usize::MAX,
        old(plane)@.len() == (8 * cols) * (8 * rows),
        aic_state::plane_of(old(rec)@, old(meta)@, cols).has_rows(rows),
    ensures
        aic_plane_read(
            then_aic_block(
                Ok(
                    (
                        (old(plane)@, aic_state::plane_of(old(rec)@, old(meta)@, cols)),
                        bits::bits_read(*old(r)) as int,
                    ),
                ),
                bits::stream(*old(r)),
                8 * cols as int,
                bx as int,
                by as int,
                coded,
                mode,
                quant as int,
                segment,
            ),
            res,
            final(plane)@,
            aic_state::plane_of(final(rec)@, final(meta)@, cols),
            *old(r),
            *final(r),
        ),
        final(plane)@.len() == old(plane)@.len(),
        aic_state::plane_of(final(rec)@, final(meta)@, cols).has_rows(rows),
{
    let ghost known = aic_state::plane_of(rec@, meta@, cols);
    proof {
        reveal(then_aic_block);
        scal_upsample::lemma_position(by as int, bx as int, cols as int, rows);
        blocks::lemma_chroma_place(cols as int, rows, bx as int, by as int);
        assert(known.meta.len() == cols * rows);
        assert(known.rec.len() == rec@.len());
        lemma_neighbours_in_range(known, rows, bx as int, by as int, segment);
    }
    let block: H263Block = parse_intra_block_aic(r, coded)?;
    let above: Neighbour<'_> = aic_chroma_neighbour_above(
        rec.as_slice(),
        meta.as_slice(),
        bx,
        by,
        cols,
        segment,
    );
    let left: Neighbour<'_> = aic_chroma_neighbour_left(
        rec.as_slice(),
        meta.as_slice(),
        bx,
        by,
        cols,
        segment,
    );
    let c: [i32; 64] = aic_intra_reconstruct_coefficients(&block, mode, quant, above, left);
    let samples: [u8; 64] = samples_of(&c);
    proof {
        assert(cols * rows == rec.len());
    }
    let slot: usize = by * cols + bx;
    blit_block(plane.as_mut_slice(), 8 * cols, 8 * bx, 8 * by, &samples);
    let ghost rec0 = rec@;
    rec.set(slot, c);
    meta.set(slot, AicBlockMeta { intra: true, segment });
    proof {
        assert(aic_state::recs(rec@) =~= aic_state::recs(rec0).update(slot as int, c@));
    }
    Ok(())
}

/// What a block is predicted from is within range.
proof fn lemma_neighbours_in_range(
    known: aic_state::AicPlane,
    rows: int,
    bx: int,
    by: int,
    segment: u32,
)
    requires
        known.has_rows(rows),
        0 <= bx < known.cols,
        0 <= by < rows,
    ensures
        residual::neighbour_in_range(known.above(bx, by, segment)),
        residual::neighbour_in_range(known.left(bx, by, segment)),
{
    scal_upsample::lemma_position(by, bx, known.cols, rows);
    if by > 0 {
        scal_upsample::lemma_position(by - 1, bx, known.cols, rows);
    }
}

/// Read the luma blocks of a macroblock into a plane.
#[verifier::spinoff_prover]
fn decode_aic_luma(
    r: &mut BitReader<'_>,
    plane: &mut Vec<u8>,
    rec: &mut Vec<[i32; 64]>,
    meta: &mut Vec<AicBlockMeta>,
    cols: usize,
    col: usize,
    row: usize,
    coded: &[bool; 6],
    mode: IntraMode,
    quant: u8,
    segment: u32,
    Ghost(rows): Ghost<int>,
) -> (res: Result<(), Error>)
    requires
        1 <= quant <= 31,
        2 * col + 1 < cols,
        2 * row + 1 < rows,
        8 * cols <= usize::MAX,
        8 * rows <= usize::MAX,
        old(plane)@.len() == (8 * cols) * (8 * rows),
        aic_state::plane_of(old(rec)@, old(meta)@, cols).has_rows(rows),
    ensures
        aic_plane_read(
            aic_luma_at(
                bits::stream(*old(r)),
                bits::bits_read(*old(r)) as int,
                old(plane)@,
                aic_state::plane_of(old(rec)@, old(meta)@, cols),
                8 * cols as int,
                col as int,
                row as int,
                coded@,
                mode,
                quant as int,
                segment,
            ),
            res,
            final(plane)@,
            aic_state::plane_of(final(rec)@, final(meta)@, cols),
            *old(r),
            *final(r),
        ),
        final(plane)@.len() == old(plane)@.len(),
        aic_state::plane_of(final(rec)@, final(meta)@, cols).has_rows(rows),
{
    proof {
        lemma_errors_stay();
    }
    let x: usize = 2 * col;
    let y: usize = 2 * row;
    decode_aic_block(
        r,
        plane,
        rec,
        meta,
        cols,
        x,
        y,
        coded[0],
        mode,
        quant,
        segment,
        Ghost(rows),
    )?;
    decode_aic_block(
        r,
        plane,
        rec,
        meta,
        cols,
        x + 1,
        y,
        coded[1],
        mode,
        quant,
        segment,
        Ghost(rows),
    )?;
    decode_aic_block(
        r,
        plane,
        rec,
        meta,
        cols,
        x,
        y + 1,
        coded[2],
        mode,
        quant,
        segment,
        Ghost(rows),
    )?;
    decode_aic_block(
        r,
        plane,
        rec,
        meta,
        cols,
        x + 1,
        y + 1,
        coded[3],
        mode,
        quant,
        segment,
        Ghost(rows),
    )
}

/// Read a macroblock with Advanced INTRA Coding into a frame.
#[verifier::spinoff_prover]
pub(crate) fn decode_intra_macroblock_aic(
    r: &mut BitReader<'_>,
    frame: &mut YuvFrame,
    state: &mut AicState,
    col: usize,
    row: usize,
    coded: &[bool; 6],
    mode: IntraMode,
    quant: u8,
    segment: u32,
    Ghost(cols): Ghost<int>,
    Ghost(rows): Ghost<int>,
) -> (res: Result<(), Error>)
    requires
        blocks::has_macroblocks(old(frame)@, cols, rows),
        old(state)@.has_size(cols, rows),
        col < cols,
        row < rows,
        1 <= quant <= 31,
    ensures
        ({
            let outcome = aic_macroblock_at(
                bits::stream(*old(r)),
                bits::bits_read(*old(r)) as int,
                old(frame)@,
                old(state)@,
                col as int,
                row as int,
                coded@,
                mode,
                quant as int,
                segment,
            );
            match outcome {
                Ok(((planes, known), end)) => res is Ok && final(frame)@ == planes && final(state)@
                    == known && bits::bits_read(*final(r)) == end,
                Err(e) => res == Err::<(), Error>(e),
            }
        }),
        bits::moved_on(*old(r), *final(r)),
        blocks::has_macroblocks(final(frame)@, cols, rows),
        final(state)@.has_size(cols, rows),
{
    let luma_cols: usize = state.luma_block_cols;
    let chroma_cols: usize = state.chroma_block_cols;
    decode_aic_luma(
        r,
        &mut frame.y,
        &mut state.luma_rec,
        &mut state.luma_meta,
        luma_cols,
        col,
        row,
        coded,
        mode,
        quant,
        segment,
        Ghost(2 * rows),
    )?;
    decode_aic_block(
        r,
        &mut frame.cb,
        &mut state.cb_rec,
        &mut state.cb_meta,
        chroma_cols,
        col,
        row,
        coded[4],
        mode,
        quant,
        segment,
        Ghost(rows),
    )?;
    decode_aic_block(
        r,
        &mut frame.cr,
        &mut state.cr_rec,
        &mut state.cr_meta,
        chroma_cols,
        col,
        row,
        coded[5],
        mode,
        quant,
        segment,
        Ghost(rows),
    )?;
    Ok(())
}

} // verus!
