//! One macroblock, from its header to its samples.

use super::aic_blocks;
use super::aic_blocks::decode_intra_macroblock_aic;
use super::aic_state;
use super::aic_state::AicState;
use super::blocks;
use super::blocks::{decode_intra_macroblock, decode_predicted_macroblock};
use super::frame;
use super::frame::YuvFrame;
use super::grid;
use super::grid::{predict_mv, MbGridEntry};
use super::predictions;
use super::predictions::{
    predict_by_four_vectors, predict_by_one_vector, reconstruct_four_vectors,
};
use crate::bits;
use crate::error::Error;
use crate::macroblock::{H263Macroblock, IntraMode, MbType, Mvd};
use crate::macroblock_layer;
use crate::motion;
use crate::motion::{reconstruct_mv, reconstruct_mv_umv, Mb4Mv, MotionVector};
use oxideav_core::bits::BitReader;
use vstd::prelude::*;

verus! {

/// Where a macroblock stands.
#[derive(Clone, Copy, Debug, PartialEq, Eq, Structural)]
pub struct MbPlace {
    pub col: usize,
    pub row: usize,
    /// The first row of its group of blocks.
    pub gob_top_row: usize,
    /// Its group of blocks has a header, so that nothing above counts.
    pub gob_header_present: bool,
    /// The segment of the picture that it belongs to.
    pub segment: u32,
}

/// The modes that a macroblock is decoded in.
#[derive(Clone, Copy, Debug, PartialEq, Eq, Structural)]
pub struct MbModes {
    /// Unrestricted vectors.
    pub umv: bool,
    pub advanced_prediction: bool,
    /// The picture is half of a PB-frame.
    pub pb: bool,
    /// Advanced INTRA coding.
    pub aic: bool,
}

/// A frame with a macroblock decoded into it, and the macroblock's vectors.
pub struct Decoded {
    pub planes: frame::Planes,
    pub known: aic_state::AicPicture,
    pub mv: MotionVector,
    pub mvs4: Seq<MotionVector>,
}

/// What becomes of a macroblock, and the bit behind it.
pub type MbStep = Result<(Decoded, int), Error>;

/// What there is before a macroblock.
pub struct Before {
    pub planes: frame::Planes,
    pub known: aic_state::AicPicture,
    pub grid: Seq<grid::Entry>,
    pub cols: int,
}

/// No block has coefficients.
pub open spec fn none_coded() -> Seq<bool> {
    Seq::new(6, |i: int| false)
}

/// The same vector for each of the four luma blocks.
pub open spec fn four_times(mv: MotionVector) -> Seq<MotionVector> {
    Seq::new(4, |i: int| mv)
}

/// A pattern that was sent, or no block.
pub open spec fn pattern(p: Option<u8>) -> int {
    match p {
        Some(v) => v as int,
        None => 0,
    }
}

/// The blocks remembered for Advanced INTRA coding, behind a macroblock that is
/// not INTRA.
pub open spec fn known_after_other(
    known: aic_state::AicPicture,
    place: MbPlace,
    modes: MbModes,
) -> aic_state::AicPicture {
    if modes.aic {
        known.with_other(place.col as int, place.row as int, place.segment)
    } else {
        known
    }
}

/// The vector of a macroblock that sends one.
pub open spec fn sent_vector(
    b: Before,
    mvd: Mvd,
    place: MbPlace,
    modes: MbModes,
) -> MotionVector {
    motion::reconstructed(
        modes.umv,
        grid::predictor(
            b.grid,
            b.cols,
            place.col as int,
            place.row as int,
            place.gob_top_row as int,
            place.gob_header_present,
            modes.pb,
            place.segment,
        ),
        mvd,
    )
}

/// A macroblock that is predicted and reads its blocks from bit `at`.
pub open spec fn predicted_step(
    s: Seq<bool>,
    at: int,
    b: Before,
    pred: Seq<Seq<u8>>,
    coded: Seq<bool>,
    quant: int,
    mvs4: Seq<MotionVector>,
    place: MbPlace,
    modes: MbModes,
) -> MbStep {
    match blocks::predicted_macroblock_at(
        s,
        at,
        b.planes,
        place.col as int,
        place.row as int,
        pred,
        coded,
        quant,
    ) {
        Err(e) => Err(e),
        Ok((planes, end)) => Ok(
            (
                Decoded {
                    planes,
                    known: known_after_other(b.known, place, modes),
                    mv: mvs4[0],
                    mvs4,
                },
                end,
            ),
        ),
    }
}

/// A skipped macroblock: a copy of the reference.
pub open spec fn skipped_step(
    s: Seq<bool>,
    at: int,
    mb: H263Macroblock,
    reference: Option<frame::Planes>,
    b: Before,
    place: MbPlace,
    modes: MbModes,
) -> MbStep {
    match reference {
        None => Err(Error::NotImplemented),
        Some(r) => predicted_step(
            s,
            at,
            b,
            predictions::by_one_vector(
                r,
                place.col as int,
                place.row as int,
                motion::zero_vector(),
            ),
            none_coded(),
            mb.quantiser_after as int,
            grid::zero_vectors(),
            place,
            modes,
        ),
    }
}

/// The vector differences of a macroblock with four vectors.
pub open spec fn four_differences(mb: H263Macroblock) -> Option<Seq<Mvd>> {
    match (mb.mvd, mb.mvd2, mb.mvd3, mb.mvd4) {
        (Some(a), Some(b), Some(c), Some(d)) => Some(seq![a, b, c, d]),
        _ => None,
    }
}

/// Nothing above counts for the macroblock's vectors.
pub open spec fn at_top(place: MbPlace) -> bool {
    place.row == 0 || place.gob_header_present && place.row == place.gob_top_row
}

/// A macroblock with four vectors.
pub open spec fn inter4v_step(
    s: Seq<bool>,
    at: int,
    mb: H263Macroblock,
    reference: Option<frame::Planes>,
    b: Before,
    place: MbPlace,
    modes: MbModes,
) -> MbStep {
    match (reference, four_differences(mb)) {
        (Some(r), Some(mvds)) => if modes.advanced_prediction {
            let mvs = predictions::four_vectors(
                grid::around(b.grid, b.cols, place.col as int, place.row as int),
                at_top(place),
                place.col + 1 >= b.cols,
                modes.umv,
                mvds,
            );
            predicted_step(
                s,
                at,
                b,
                predictions::by_four_vectors(
                    r,
                    b.grid,
                    b.cols,
                    place.col as int,
                    place.row as int,
                    mvs,
                ),
                blocks::inter_pattern(pattern(mb.cbpy), pattern(mb.cbpc)),
                mb.quantiser_after as int,
                mvs,
                place,
                modes,
            )
        } else {
            Err(Error::NotImplemented)
        },
        _ => Err(Error::NotImplemented),
    }
}

/// An INTRA macroblock; in PB-frames it has a vector, for the B-picture.
pub open spec fn intra_step(
    s: Seq<bool>,
    at: int,
    mb: H263Macroblock,
    b: Before,
    place: MbPlace,
    modes: MbModes,
) -> MbStep {
    match blocks::intra_macroblock_at(
        s,
        at,
        b.planes,
        place.col as int,
        place.row as int,
        blocks::intra_pattern(pattern(mb.cbpy), pattern(mb.cbpc)),
        mb.quantiser_after as int,
    ) {
        Err(e) => Err(e),
        Ok((planes, end)) => if !modes.pb {
            Ok(
                (
                    Decoded {
                        planes,
                        known: b.known,
                        mv: motion::zero_vector(),
                        mvs4: grid::zero_vectors(),
                    },
                    end,
                ),
            )
        } else {
            match mb.mvd {
                None => Err(Error::NotImplemented),
                Some(d) => {
                    let mv = sent_vector(b, d, place, modes);
                    Ok((Decoded { planes, known: b.known, mv, mvs4: four_times(mv) }, end))
                },
            }
        },
    }
}

/// An INTRA macroblock with Advanced INTRA coding.
pub open spec fn aic_step(
    s: Seq<bool>,
    at: int,
    mb: H263Macroblock,
    b: Before,
    place: MbPlace,
) -> MbStep {
    match mb.intra_mode {
        None => Err(Error::NotImplemented),
        Some(mode) => match aic_blocks::aic_macroblock_at(
            s,
            at,
            b.planes,
            b.known,
            place.col as int,
            place.row as int,
            blocks::intra_pattern(pattern(mb.cbpy), pattern(mb.cbpc)),
            mode,
            mb.quantiser_after as int,
            place.segment,
        ) {
            Err(e) => Err(e),
            Ok(((planes, known), end)) => Ok(
                (
                    Decoded {
                        planes,
                        known,
                        mv: motion::zero_vector(),
                        mvs4: grid::zero_vectors(),
                    },
                    end,
                ),
            ),
        },
    }
}

/// A macroblock with one vector.
pub open spec fn inter_step(
    s: Seq<bool>,
    at: int,
    mb: H263Macroblock,
    reference: Option<frame::Planes>,
    b: Before,
    place: MbPlace,
    modes: MbModes,
) -> MbStep {
    match (reference, mb.mvd) {
        (Some(r), Some(d)) => {
            let mv = sent_vector(b, d, place, modes);
            predicted_step(
                s,
                at,
                b,
                predictions::by_one_vector(r, place.col as int, place.row as int, mv),
                blocks::inter_pattern(pattern(mb.cbpy), pattern(mb.cbpc)),
                mb.quantiser_after as int,
                four_times(mv),
                place,
                modes,
            )
        },
        _ => Err(Error::NotImplemented),
    }
}

/// A macroblock whose header is `mb` and whose blocks start at bit `at`.
#[verifier::opaque]
pub open spec fn macroblock_step(
    s: Seq<bool>,
    at: int,
    mb: H263Macroblock,
    reference: Option<frame::Planes>,
    b: Before,
    place: MbPlace,
    modes: MbModes,
) -> MbStep {
    if !mb.coded {
        skipped_step(s, at, mb, reference, b, place, modes)
    } else {
        match mb.mb_type {
            None => Err(Error::NotImplemented),
            Some(t) => if t.four_vectors() {
                inter4v_step(s, at, mb, reference, b, place, modes)
            } else if !t.intra() {
                inter_step(s, at, mb, reference, b, place, modes)
            } else if modes.aic {
                aic_step(s, at, mb, b, place)
            } else {
                intra_step(s, at, mb, b, place, modes)
            },
        }
    }
}

/// The planes of a frame, if there is one.
pub open spec fn planes_of(f: Option<&YuvFrame>) -> Option<frame::Planes> {
    match f {
        Some(r) => Some(r@),
        None => None,
    }
}

/// What is known before a macroblock.
pub open spec fn before(
    frame: YuvFrame,
    state: AicState,
    grid: Seq<MbGridEntry>,
    cols: int,
) -> Before {
    Before { planes: frame@, known: state@, grid: grid::entries(grid), cols }
}

/// Frame, state and grid belong to pictures of `cols` by `rows` macroblocks.
pub open spec fn ready(
    reference: Option<frame::Planes>,
    b: Before,
    place: MbPlace,
    rows: int,
) -> bool {
    &&& blocks::has_macroblocks(b.planes, b.cols, rows)
    &&& b.known.has_size(b.cols, rows)
    &&& b.grid.len() == b.cols * rows
    &&& grid::grid_in_range(b.grid)
    &&& place.col < b.cols
    &&& place.row < rows
    &&& reference matches Some(r) ==> blocks::has_macroblocks(r, b.cols, rows)
}

/// The header can be decoded without overflow.
pub open spec fn decodable(mb: H263Macroblock) -> bool {
    &&& macroblock_layer::differences_in_range(mb)
    &&& 1 <= mb.quantiser_after <= 31
}

/// `res`, the frame and the state are what `outcome` tells of, and belong to
/// pictures of `cols` by `rows` macroblocks still.
pub open spec fn decoded_as(
    outcome: MbStep,
    res: Result<(MotionVector, Mb4Mv), Error>,
    frame: YuvFrame,
    state: AicState,
    r0: BitReader,
    r1: BitReader,
    cols: int,
    rows: int,
) -> bool {
    &&& bits::moved_on(r0, r1)
    &&& match outcome {
        Ok((d, end)) => {
            &&& res matches Ok((mv, mvs4)) && mv == d.mv && mvs4@ == d.mvs4
            &&& frame@ == d.planes
            &&& state@ == d.known
            &&& bits::bits_read(r1) == end
            &&& d.mv.in_range()
            &&& predictions::all_in_range(d.mvs4)
        },
        Err(e) => res == Err::<(MotionVector, Mb4Mv), Error>(e),
    }
    &&& blocks::has_macroblocks(frame@, cols, rows)
    &&& state@.has_size(cols, rows)
}

/// A macroblock with four vectors is refused before anything is read: its mode
/// is not on, there is nothing to predict from, or vectors are missing.
pub open spec fn four_vectors_refused(
    mb: H263Macroblock,
    reference: Option<frame::Planes>,
    modes: MbModes,
) -> bool {
    !modes.advanced_prediction || reference is None || four_differences(mb) is None
}

/// A macroblock is refused before anything is read.
pub open spec fn refused(
    mb: H263Macroblock,
    reference: Option<frame::Planes>,
    modes: MbModes,
) -> bool {
    if !mb.coded {
        reference is None
    } else {
        match mb.mb_type {
            None => true,
            Some(t) => if t.four_vectors() {
                four_vectors_refused(mb, reference, modes)
            } else if !t.intra() {
                reference is None || mb.mvd is None
            } else {
                modes.aic && mb.intra_mode is None
            },
        }
    }
}

/// Frame, state and reader are as before.
pub open spec fn untouched(
    frame0: YuvFrame,
    frame1: YuvFrame,
    state0: AicState,
    state1: AicState,
    r0: BitReader,
    r1: BitReader,
) -> bool {
    &&& frame1@ == frame0@
    &&& state1@ == state0@
    &&& bits::stream(r1) == bits::stream(r0)
    &&& bits::bits_read(r1) == bits::bits_read(r0)
}

/// A sent pattern, or zero.
fn pattern_or_zero(p: Option<u8>) -> (v: u8)
    ensures
        v == pattern(p),
{
    match p {
        Some(v) => v,
        None => 0,
    }
}

/// Which blocks of an INTRA macroblock have coefficients.
fn intra_coded(mb: &H263Macroblock) -> (c: [bool; 6])
    ensures
        c@ == blocks::intra_pattern(pattern(mb.cbpy), pattern(mb.cbpc)),
{
    let y: u8 = pattern_or_zero(mb.cbpy);
    let uv: u8 = pattern_or_zero(mb.cbpc);
    let c: [bool; 6] = [
        y / 8 % 2 == 1,
        y / 4 % 2 == 1,
        y / 2 % 2 == 1,
        y % 2 == 1,
        uv / 2 % 2 == 1,
        uv % 2 == 1,
    ];
    assert(c@ =~= blocks::intra_pattern(pattern(mb.cbpy), pattern(mb.cbpc)));
    c
}

/// Which blocks of a predicted macroblock have coefficients.
fn inter_coded(mb: &H263Macroblock) -> (c: [bool; 6])
    ensures
        c@ == blocks::inter_pattern(pattern(mb.cbpy), pattern(mb.cbpc)),
{
    let y: u8 = pattern_or_zero(mb.cbpy);
    let uv: u8 = pattern_or_zero(mb.cbpc);
    let c: [bool; 6] = [
        y / 8 % 2 != 1,
        y / 4 % 2 != 1,
        y / 2 % 2 != 1,
        y % 2 != 1,
        uv / 2 % 2 == 1,
        uv % 2 == 1,
    ];
    assert(c@ =~= blocks::inter_pattern(pattern(mb.cbpy), pattern(mb.cbpc)));
    c
}

/// Read a predicted macroblock into a frame and note it.
#[verifier::spinoff_prover]
fn decode_predicted(
    r: &mut BitReader<'_>,
    frame: &mut YuvFrame,
    state: &mut AicState,
    pred: &[[u8; 64]; 6],
    coded: &[bool; 6],
    quant: u8,
    mvs4: Mb4Mv,
    place: MbPlace,
    modes: MbModes,
    Ghost(b): Ghost<Before>,
    Ghost(rows): Ghost<int>,
) -> (res: Result<(MotionVector, Mb4Mv), Error>)
    requires
        ready(None, b, place, rows),
        b.planes == old(frame)@,
        b.known == old(state)@,
        1 <= quant <= 31,
        predictions::all_in_range(mvs4@),
    ensures
        decoded_as(
            predicted_step(
                bits::stream(*old(r)),
                bits::bits_read(*old(r)) as int,
                b,
                blocks::six(pred@),
                coded@,
                quant as int,
                mvs4@,
                place,
                modes,
            ),
            res,
            *final(frame),
            *final(state),
            *old(r),
            *final(r),
            b.cols,
            rows,
        ),
{
    decode_predicted_macroblock(
        r,
        frame,
        place.col,
        place.row,
        pred,
        coded,
        quant,
        Ghost(b.cols),
        Ghost(rows),
    )?;
    if modes.aic {
        proof {
            state@.lemma_with_other(
                b.cols,
                rows,
                place.col as int,
                place.row as int,
                place.segment,
            );
        }
        state.record_non_intra_macroblock(place.col, place.row, place.segment);
    }
    Ok((mvs4[0], mvs4))
}

/// The vector of a macroblock that sends one.
fn receive_vector(
    grid: &[MbGridEntry],
    mb_cols: usize,
    mvd: Mvd,
    place: MbPlace,
    modes: MbModes,
    Ghost(b): Ghost<Before>,
    Ghost(rows): Ghost<int>,
) -> (mv: MotionVector)
    requires
        ready(None, b, place, rows),
        b.grid == grid::entries(grid@),
        b.cols == mb_cols,
        motion::mvd_in_range(mvd),
    ensures
        mv == sent_vector(b, mvd, place, modes),
        mv.in_range(),
{
    proof {
        lemma_row_inside(place.row as int, mb_cols as int, rows);
    }
    let predictor: MotionVector = predict_mv(
        grid,
        mb_cols,
        place.col,
        place.row,
        place.gob_top_row,
        place.gob_header_present,
        modes.pb,
        place.segment,
    );
    if modes.umv {
        reconstruct_mv_umv(predictor, mvd)
    } else {
        reconstruct_mv(predictor, mvd)
    }
}

/// A row of a picture lies inside its grid.
proof fn lemma_row_inside(row: int, cols: int, rows: int)
    requires
        0 <= row < rows,
        0 <= cols,
    ensures
        (row + 1) * cols <= cols * rows,
{
    assert((row + 1) * cols <= cols * rows) by (nonlinear_arith)
        requires
            row + 1 <= rows,
            0 <= cols,
    ;
}

/// Copy a skipped macroblock.
#[verifier::spinoff_prover]
fn decode_skipped(
    r: &mut BitReader<'_>,
    mb: &H263Macroblock,
    reference: Option<&YuvFrame>,
    frame: &mut YuvFrame,
    state: &mut AicState,
    place: MbPlace,
    modes: MbModes,
    Ghost(b): Ghost<Before>,
    Ghost(rows): Ghost<int>,
) -> (res: Result<(MotionVector, Mb4Mv), Error>)
    requires
        ready(planes_of(reference), b, place, rows),
        b.planes == old(frame)@,
        b.known == old(state)@,
        decodable(*mb),
    ensures
        decoded_as(
            skipped_step(
                bits::stream(*old(r)),
                bits::bits_read(*old(r)) as int,
                *mb,
                planes_of(reference),
                b,
                place,
                modes,
            ),
            res,
            *final(frame),
            *final(state),
            *old(r),
            *final(r),
            b.cols,
            rows,
        ),
        reference is None ==> {
            &&& res == Err::<(MotionVector, Mb4Mv), Error>(Error::NotImplemented)
            &&& untouched(
                *old(frame),
                *final(frame),
                *old(state),
                *final(state),
                *old(r),
                *final(r),
            )
        },
{
    match reference {
        None => Err(Error::NotImplemented),
        Some(from) => {
            let zero: MotionVector = MotionVector { dx: 0, dy: 0 };
            let mvs4: Mb4Mv = [zero, zero, zero, zero];
            let coded: [bool; 6] = [false, false, false, false, false, false];
            assert(mvs4@ =~= grid::zero_vectors());
            assert(coded@ =~= none_coded());
            let pred: [[u8; 64]; 6] = predict_by_one_vector(
                from,
                place.col,
                place.row,
                zero,
                Ghost(b.cols),
                Ghost(rows),
            );
            decode_predicted(
                r,
                frame,
                state,
                &pred,
                &coded,
                mb.quantiser_after,
                mvs4,
                place,
                modes,
                Ghost(b),
                Ghost(rows),
            )
        },
    }
}

/// Decode a macroblock with one vector.
#[verifier::spinoff_prover]
fn decode_inter_macroblock(
    r: &mut BitReader<'_>,
    mb: &H263Macroblock,
    reference: Option<&YuvFrame>,
    frame: &mut YuvFrame,
    state: &mut AicState,
    grid: &[MbGridEntry],
    mb_cols: usize,
    place: MbPlace,
    modes: MbModes,
    Ghost(b): Ghost<Before>,
    Ghost(rows): Ghost<int>,
) -> (res: Result<(MotionVector, Mb4Mv), Error>)
    requires
        ready(planes_of(reference), b, place, rows),
        b == before(*old(frame), *old(state), grid@, mb_cols as int),
        decodable(*mb),
    ensures
        decoded_as(
            inter_step(
                bits::stream(*old(r)),
                bits::bits_read(*old(r)) as int,
                *mb,
                planes_of(reference),
                b,
                place,
                modes,
            ),
            res,
            *final(frame),
            *final(state),
            *old(r),
            *final(r),
            b.cols,
            rows,
        ),
        reference is None || mb.mvd is None ==> {
            &&& res == Err::<(MotionVector, Mb4Mv), Error>(Error::NotImplemented)
            &&& untouched(
                *old(frame),
                *final(frame),
                *old(state),
                *final(state),
                *old(r),
                *final(r),
            )
        },
{
    let from: &YuvFrame = match reference {
        Some(f) => f,
        None => {
            return Err(Error::NotImplemented);
        },
    };
    let mvd: Mvd = match mb.mvd {
        Some(d) => d,
        None => {
            return Err(Error::NotImplemented);
        },
    };
    let mv: MotionVector = receive_vector(grid, mb_cols, mvd, place, modes, Ghost(b), Ghost(rows));
    let mvs4: Mb4Mv = [mv, mv, mv, mv];
    assert(mvs4@ =~= four_times(mv));
    let coded: [bool; 6] = inter_coded(mb);
    let pred: [[u8; 64]; 6] = predict_by_one_vector(
        from,
        place.col,
        place.row,
        mv,
        Ghost(b.cols),
        Ghost(rows),
    );
    decode_predicted(
        r,
        frame,
        state,
        &pred,
        &coded,
        mb.quantiser_after,
        mvs4,
        place,
        modes,
        Ghost(b),
        Ghost(rows),
    )
}

/// Decode a macroblock with four vectors.
#[verifier::spinoff_prover]
fn decode_inter4v_macroblock(
    r: &mut BitReader<'_>,
    mb: &H263Macroblock,
    reference: Option<&YuvFrame>,
    frame: &mut YuvFrame,
    state: &mut AicState,
    grid: &[MbGridEntry],
    mb_cols: usize,
    place: MbPlace,
    modes: MbModes,
    Ghost(b): Ghost<Before>,
    Ghost(rows): Ghost<int>,
) -> (res: Result<(MotionVector, Mb4Mv), Error>)
    requires
        ready(planes_of(reference), b, place, rows),
        b == before(*old(frame), *old(state), grid@, mb_cols as int),
        decodable(*mb),
    ensures
        decoded_as(
            inter4v_step(
                bits::stream(*old(r)),
                bits::bits_read(*old(r)) as int,
                *mb,
                planes_of(reference),
                b,
                place,
                modes,
            ),
            res,
            *final(frame),
            *final(state),
            *old(r),
            *final(r),
            b.cols,
            rows,
        ),
        four_vectors_refused(*mb, planes_of(reference), modes) ==> {
            &&& res == Err::<(MotionVector, Mb4Mv), Error>(Error::NotImplemented)
            &&& untouched(
                *old(frame),
                *final(frame),
                *old(state),
                *final(state),
                *old(r),
                *final(r),
            )
        },
{
    if !modes.advanced_prediction {
        return Err(Error::NotImplemented);
    }
    let from: &YuvFrame = match reference {
        Some(f) => f,
        None => {
            return Err(Error::NotImplemented);
        },
    };
    let mvds: [Mvd; 4] = match (mb.mvd, mb.mvd2, mb.mvd3, mb.mvd4) {
        (Some(d1), Some(d2), Some(d3), Some(d4)) => [d1, d2, d3, d4],
        _ => {
            return Err(Error::NotImplemented);
        },
    };
    assert(four_differences(*mb) matches Some(d) && d =~= mvds@);
    proof {
        lemma_row_inside(place.row as int, mb_cols as int, rows);
    }
    let top: bool = place.row == 0 || (place.gob_header_present && place.row == place.gob_top_row);
    let mvs4: Mb4Mv = reconstruct_four_vectors(
        grid,
        mb_cols,
        place.col,
        place.row,
        top,
        modes.umv,
        &mvds,
    );
    let coded: [bool; 6] = inter_coded(mb);
    let pred: [[u8; 64]; 6] = predict_by_four_vectors(
        from,
        grid,
        mb_cols,
        place.col,
        place.row,
        &mvs4,
        Ghost(rows),
    );
    decode_predicted(
        r,
        frame,
        state,
        &pred,
        &coded,
        mb.quantiser_after,
        mvs4,
        place,
        modes,
        Ghost(b),
        Ghost(rows),
    )
}

/// Decode an INTRA macroblock.
#[verifier::spinoff_prover]
fn decode_plain_intra(
    r: &mut BitReader<'_>,
    mb: &H263Macroblock,
    frame: &mut YuvFrame,
    state: &AicState,
    grid: &[MbGridEntry],
    mb_cols: usize,
    place: MbPlace,
    modes: MbModes,
    Ghost(b): Ghost<Before>,
    Ghost(rows): Ghost<int>,
) -> (res: Result<(MotionVector, Mb4Mv), Error>)
    requires
        ready(None, b, place, rows),
        b == before(*old(frame), *state, grid@, mb_cols as int),
        decodable(*mb),
    ensures
        decoded_as(
            intra_step(
                bits::stream(*old(r)),
                bits::bits_read(*old(r)) as int,
                *mb,
                b,
                place,
                modes,
            ),
            res,
            *final(frame),
            *state,
            *old(r),
            *final(r),
            b.cols,
            rows,
        ),
{
    let coded: [bool; 6] = intra_coded(mb);
    decode_intra_macroblock(
        r,
        frame,
        place.col,
        place.row,
        &coded,
        mb.quantiser_after,
        Ghost(b.cols),
        Ghost(rows),
    )?;
    if !modes.pb {
        let zero: MotionVector = MotionVector { dx: 0, dy: 0 };
        let mvs4: Mb4Mv = [zero, zero, zero, zero];
        assert(mvs4@ =~= grid::zero_vectors());
        return Ok((zero, mvs4));
    }
    match mb.mvd {
        None => Err(Error::NotImplemented),
        Some(d) => {
            let mv: MotionVector = receive_vector(
                grid,
                mb_cols,
                d,
                place,
                modes,
                Ghost(b),
                Ghost(rows),
            );
            let mvs4: Mb4Mv = [mv, mv, mv, mv];
            assert(mvs4@ =~= four_times(mv));
            Ok((mv, mvs4))
        },
    }
}

/// Decode an INTRA macroblock with Advanced INTRA coding.
#[verifier::spinoff_prover]
fn decode_aic_intra(
    r: &mut BitReader<'_>,
    mb: &H263Macroblock,
    frame: &mut YuvFrame,
    state: &mut AicState,
    place: MbPlace,
    Ghost(b): Ghost<Before>,
    Ghost(rows): Ghost<int>,
) -> (res: Result<(MotionVector, Mb4Mv), Error>)
    requires
        ready(None, b, place, rows),
        b.planes == old(frame)@,
        b.known == old(state)@,
        decodable(*mb),
    ensures
        decoded_as(
            aic_step(
                bits::stream(*old(r)),
                bits::bits_read(*old(r)) as int,
                *mb,
                b,
                place,
            ),
            res,
            *final(frame),
            *final(state),
            *old(r),
            *final(r),
            b.cols,
            rows,
        ),
        mb.intra_mode is None ==> {
            &&& res == Err::<(MotionVector, Mb4Mv), Error>(Error::NotImplemented)
            &&& untouched(
                *old(frame),
                *final(frame),
                *old(state),
                *final(state),
                *old(r),
                *final(r),
            )
        },
{
    let mode: IntraMode = match mb.intra_mode {
        Some(m) => m,
        None => {
            return Err(Error::NotImplemented);
        },
    };
    let coded: [bool; 6] = intra_coded(mb);
    decode_intra_macroblock_aic(
        r,
        frame,
        state,
        place.col,
        place.row,
        &coded,
        mode,
        mb.quantiser_after,
        place.segment,
        Ghost(b.cols),
        Ghost(rows),
    )?;
    let zero: MotionVector = MotionVector { dx: 0, dy: 0 };
    let mvs4: Mb4Mv = [zero, zero, zero, zero];
    assert(mvs4@ =~= grid::zero_vectors());
    Ok((zero, mvs4))
}

/// Decode a macroblock whose header has been read, and give its vectors.
#[verifier::spinoff_prover]
pub(crate) fn decode_one_macroblock(
    r: &mut BitReader<'_>,
    mb: &H263Macroblock,
    reference: Option<&YuvFrame>,
    frame: &mut YuvFrame,
    state: &mut AicState,
    grid: &[MbGridEntry],
    mb_cols: usize,
    place: MbPlace,
    modes: MbModes,
    Ghost(rows): Ghost<int>,
) -> (res: Result<(MotionVector, Mb4Mv), Error>)
    requires
        ready(
            planes_of(reference),
            before(*old(frame), *old(state), grid@, mb_cols as int),
            place,
            rows,
        ),
        decodable(*mb),
    ensures
        decoded_as(
            macroblock_step(
                bits::stream(*old(r)),
                bits::bits_read(*old(r)) as int,
                *mb,
                planes_of(reference),
                before(*old(frame), *old(state), grid@, mb_cols as int),
                place,
                modes,
            ),
            res,
            *final(frame),
            *final(state),
            *old(r),
            *final(r),
            mb_cols as int,
            rows,
        ),
        refused(*mb, planes_of(reference), modes) ==> {
            &&& res == Err::<(MotionVector, Mb4Mv), Error>(Error::NotImplemented)
            &&& untouched(
                *old(frame),
                *final(frame),
                *old(state),
                *final(state),
                *old(r),
                *final(r),
            )
        },
{
    let ghost b = before(*frame, *state, grid@, mb_cols as int);
    proof {
        reveal(macroblock_step);
    }
    if !mb.coded {
        return decode_skipped(
            r,
            mb,
            reference,
            frame,
            state,
            place,
            modes,
            Ghost(b),
            Ghost(rows),
        );
    }
    let t: MbType = match mb.mb_type {
        Some(t) => t,
        None => {
            return Err(Error::NotImplemented);
        },
    };
    if matches!(t, MbType::Inter4V | MbType::Inter4VQ) {
        decode_inter4v_macroblock(
            r,
            mb,
            reference,
            frame,
            state,
            grid,
            mb_cols,
            place,
            modes,
            Ghost(b),
            Ghost(rows),
        )
    } else if !t.is_intra() {
        decode_inter_macroblock(
            r,
            mb,
            reference,
            frame,
            state,
            grid,
            mb_cols,
            place,
            modes,
            Ghost(b),
            Ghost(rows),
        )
    } else if modes.aic {
        decode_aic_intra(r, mb, frame, state, place, Ghost(b), Ghost(rows))
    } else {
        decode_plain_intra(
            r,
            mb,
            frame,
            state,
            grid,
            mb_cols,
            place,
            modes,
            Ghost(b),
            Ghost(rows),
        )
    }
}

} // verus!
