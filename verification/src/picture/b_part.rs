//! The B-picture's half of a PB-frame's macroblock.

use super::blocks;
use super::blocks::decode_predicted_macroblock;
use super::frame;
use super::frame::YuvFrame;
use super::predictions;
use crate::b_picture;
use crate::b_picture::{
    both_sources, cbpb_block_present, copy_square, pb_bquant, predict_chroma_block,
    predict_luma_block, BSource,
};
use crate::bits;
use crate::error::Error;
use crate::macroblock::{H263Macroblock, Mvd};
use crate::macroblock_layer;
use crate::motion;
use crate::motion::{reconstruct_mv, Mb4Mv, MotionVector, RefPlane};
use crate::pb_layer::BpbCodingMode;
use oxideav_core::bits::BitReader;
use vstd::prelude::*;

verus! {

/// What a PB-frame's header says of its B-picture.
#[derive(Clone, Copy, Debug, PartialEq, Eq, Structural)]
pub struct PbTimes {
    /// The B-picture's distance in time from the previous picture.
    pub trb: i32,
    /// The P-picture's distance in time from the previous picture.
    pub trd: i32,
    /// How the B-blocks' quantiser follows from the macroblock's.
    pub dbquant: u8,
    /// The frame is an improved PB-frame.
    pub annex_m: bool,
}

impl PbTimes {
    /// The values are ones that can be sent.
    pub open spec fn wf(self) -> bool {
        &&& 1 <= self.trb <= 7
        &&& 1 <= self.trd <= 255
        &&& self.dbquant <= 3
    }
}

/// A sent difference, or none.
pub open spec fn difference(mvdb: Option<Mvd>) -> Mvd {
    match mvdb {
        Some(d) => d,
        None => Mvd { dx_half: 0, dy_half: 0 },
    }
}

/// How an improved PB-frame predicts the B-macroblock; a skipped macroblock
/// does not say.
pub open spec fn coding_mode(mb: H263Macroblock) -> BpbCodingMode {
    match mb.annex_m_modb {
        Some(m) => m.mode,
        None => BpbCodingMode::Bidirectional,
    }
}

/// The vector of forward prediction, predicted by that to the left.
pub open spec fn own_forward_vector(mb: H263Macroblock, left: Option<MotionVector>) -> MotionVector {
    motion::reconstructed(
        false,
        match left {
            Some(mv) => mv,
            None => motion::zero_vector(),
        },
        difference(mb.mvdb),
    )
}

/// Prediction from both pictures.
pub open spec fn from_both(
    mvs4: Seq<MotionVector>,
    diff: Mvd,
    pb: PbTimes,
) -> b_picture::BSourceView {
    b_picture::BSourceView::Both {
        forward: b_picture::forward_vectors(mvs4, diff, pb.trb as int, pb.trd as int),
        backward: b_picture::backward_vectors(mvs4, diff, pb.trb as int, pb.trd as int),
    }
}

/// Where the B-macroblock is predicted from.
pub open spec fn b_source(
    mb: H263Macroblock,
    mvs4: Seq<MotionVector>,
    left: Option<MotionVector>,
    pb: PbTimes,
) -> b_picture::BSourceView {
    if !pb.annex_m {
        from_both(mvs4, difference(mb.mvdb), pb)
    } else {
        match coding_mode(mb) {
            BpbCodingMode::Bidirectional => from_both(mvs4, difference(None), pb),
            BpbCodingMode::Forward => b_picture::BSourceView::Previous(
                own_forward_vector(mb, left),
            ),
            BpbCodingMode::Backward => b_picture::BSourceView::Current,
        }
    }
}

/// The forward vector that predicts the next macroblock's; a macroblock of
/// another mode has none.
pub open spec fn left_after(
    mb: H263Macroblock,
    left: Option<MotionVector>,
    pb: PbTimes,
) -> Option<MotionVector> {
    if !pb.annex_m {
        left
    } else {
        match coding_mode(mb) {
            BpbCodingMode::Bidirectional => None,
            BpbCodingMode::Forward => Some(own_forward_vector(mb, left)),
            BpbCodingMode::Backward => None,
        }
    }
}

/// In an improved PB-frame a forward vector is predicted by that of the
/// macroblock immediately to the left: one without a forward vector leaves
/// nothing, whatever came before it.
pub proof fn forward_vectors_are_predicted_from_the_left(
    mb: H263Macroblock,
    mvs4: Seq<MotionVector>,
    left: Option<MotionVector>,
    further_left: Option<MotionVector>,
    pb: PbTimes,
)
    requires
        pb.annex_m,
    ensures
        left_after(mb, left, pb) is Some <==> coding_mode(mb) == BpbCodingMode::Forward,
        coding_mode(mb) != BpbCodingMode::Forward ==> left_after(mb, left, pb) == left_after(
            mb,
            further_left,
            pb,
        ),
        coding_mode(mb) == BpbCodingMode::Forward ==> b_source(mb, mvs4, left, pb)
            == b_picture::BSourceView::Previous(left_after(mb, left, pb).unwrap()),
{
}

/// The prediction of a luma block of the B-macroblock; `p` is the P-picture.
pub open spec fn b_luma(
    source: b_picture::BSourceView,
    reference: frame::Planes,
    p: frame::Planes,
    col: int,
    row: int,
    blk: int,
) -> Seq<u8> {
    b_picture::luma_block_prediction(
        source,
        reference.y,
        reference.width,
        reference.height,
        16 * col,
        16 * row,
        b_picture::square(p.y, p.width, 16 * col, 16 * row, 16),
        blk,
    )
}

/// The prediction of a chroma block of the B-macroblock.
pub open spec fn b_chroma(
    source: b_picture::BSourceView,
    prev: Seq<u8>,
    current: Seq<u8>,
    reference: frame::Planes,
    p: frame::Planes,
    col: int,
    row: int,
) -> Seq<u8> {
    b_picture::chroma_block_prediction(
        source,
        prev,
        reference.width / 2,
        reference.height / 2,
        8 * col,
        8 * row,
        b_picture::square(current, p.width / 2, 8 * col, 8 * row, 8),
    )
}

/// The predictions of the B-macroblock's six blocks.
pub open spec fn b_predictions(
    source: b_picture::BSourceView,
    reference: frame::Planes,
    p: frame::Planes,
    col: int,
    row: int,
) -> Seq<Seq<u8>> {
    seq![
        b_luma(source, reference, p, col, row, 0),
        b_luma(source, reference, p, col, row, 1),
        b_luma(source, reference, p, col, row, 2),
        b_luma(source, reference, p, col, row, 3),
        b_chroma(source, reference.cb, p.cb, reference, p, col, row),
        b_chroma(source, reference.cr, p.cr, reference, p, col, row),
    ]
}

/// The pattern of coded B-blocks, none where it was not sent.
pub open spec fn sent_pattern(cbpb: Option<u8>) -> int {
    match cbpb {
        Some(v) => v as int,
        None => 0,
    }
}

/// The B-picture with the macroblock that starts at bit `at`; `p` is the
/// P-picture with its own macroblock already decoded.
pub open spec fn b_step(
    s: Seq<bool>,
    at: int,
    mb: H263Macroblock,
    mvs4: Seq<MotionVector>,
    left: Option<MotionVector>,
    reference: frame::Planes,
    p: frame::Planes,
    b: frame::Planes,
    col: int,
    row: int,
    pb: PbTimes,
) -> blocks::PlanesStep {
    blocks::predicted_macroblock_at(
        s,
        at,
        b,
        col,
        row,
        b_predictions(b_source(mb, mvs4, left, pb), reference, p, col, row),
        blocks::b_pattern(sent_pattern(mb.cbpb)),
        b_picture::b_quantiser(pb.dbquant as int, mb.quantiser_after as int),
    )
}

/// A vector that is there is within range.
pub open spec fn left_in_range(left: Option<MotionVector>) -> bool {
    left matches Some(mv) ==> mv.in_range()
}

/// The vector of forward prediction.
fn receive_forward_vector(mb: &H263Macroblock, left: Option<MotionVector>) -> (mv: MotionVector)
    requires
        macroblock_layer::differences_in_range(*mb),
        left_in_range(left),
    ensures
        mv == own_forward_vector(*mb, left),
        mv.in_range(),
{
    let predictor: MotionVector = match left {
        Some(mv) => mv,
        None => MotionVector { dx: 0, dy: 0 },
    };
    reconstruct_mv(predictor, difference_or_none(mb.mvdb))
}

/// A sent difference, or none.
fn difference_or_none(mvdb: Option<Mvd>) -> (d: Mvd)
    ensures
        d == difference(mvdb),
{
    match mvdb {
        Some(d) => d,
        None => Mvd { dx_half: 0, dy_half: 0 },
    }
}

/// Find where the B-macroblock is predicted from, and the vector that predicts
/// the next one's.
fn choose_source(
    mb: &H263Macroblock,
    mvs4: &Mb4Mv,
    left: Option<MotionVector>,
    pb: PbTimes,
) -> (r: (BSource, Option<MotionVector>))
    requires
        pb.wf(),
        macroblock_layer::differences_in_range(*mb),
        predictions::all_in_range(mvs4@),
        left_in_range(left),
    ensures
        r.0@ == b_source(*mb, mvs4@, left, pb),
        r.0@.moderate(),
        r.1 == left_after(*mb, left, pb),
        left_in_range(r.1),
{
    if !pb.annex_m {
        return (both_sources(mvs4, difference_or_none(mb.mvdb), pb.trb, pb.trd), left);
    }
    let mode: BpbCodingMode = match mb.annex_m_modb {
        Some(m) => m.coding_mode(),
        None => BpbCodingMode::Bidirectional,
    };
    match mode {
        BpbCodingMode::Bidirectional => (
            both_sources(mvs4, difference_or_none(None), pb.trb, pb.trd),
            None,
        ),
        BpbCodingMode::Forward => {
            let mv: MotionVector = receive_forward_vector(mb, left);
            (BSource::Previous(mv), Some(mv))
        },
        BpbCodingMode::Backward => (BSource::Current, None),
    }
}

/// Predict a chroma block of the B-macroblock.
fn predict_b_chroma(
    source: &BSource,
    prev: &Vec<u8>,
    current: &Vec<u8>,
    reference: &YuvFrame,
    p: &YuvFrame,
    col: usize,
    row: usize,
    Ghost(cols): Ghost<int>,
    Ghost(rows): Ghost<int>,
) -> (block: [u8; 64])
    requires
        source@.moderate(),
        blocks::has_macroblocks(reference@, cols, rows),
        blocks::has_macroblocks(p@, cols, rows),
        prev@.len() == (reference@.width / 2) * (reference@.height / 2),
        current@.len() == (p@.width / 2) * (p@.height / 2),
        col < cols,
        row < rows,
    ensures
        block@ == b_chroma(
            source@,
            prev@,
            current@,
            reference@,
            p@,
            col as int,
            row as int,
        ),
{
    let r: RefPlane<'_> = RefPlane::new(
        prev.as_slice(),
        reference.luma_width / 2,
        reference.luma_height / 2,
    );
    proof {
        blocks::lemma_chroma_place(cols, rows, col as int, row as int);
    }
    let here: Vec<u8> = copy_square(current.as_slice(), p.luma_width / 2, 8 * col, 8 * row, 8);
    predict_chroma_block(source, &r, 8 * col, 8 * row, &here)
}

/// Predict the B-macroblock's six blocks.
#[verifier::spinoff_prover]
fn predict_b_macroblock(
    source: &BSource,
    reference: &YuvFrame,
    p: &YuvFrame,
    col: usize,
    row: usize,
    Ghost(cols): Ghost<int>,
    Ghost(rows): Ghost<int>,
) -> (pred: [[u8; 64]; 6])
    requires
        source@.moderate(),
        blocks::has_macroblocks(reference@, cols, rows),
        blocks::has_macroblocks(p@, cols, rows),
        col < cols,
        row < rows,
    ensures
        blocks::six(pred@) == b_predictions(source@, reference@, p@, col as int, row as int),
{
    let y: RefPlane<'_> = RefPlane::new(
        reference.y.as_slice(),
        reference.luma_width,
        reference.luma_height,
    );
    let x0: usize = 16 * col;
    let y0: usize = 16 * row;
    proof {
        blocks::lemma_luma_place(cols, rows, col as int, row as int, 3);
    }
    let here: Vec<u8> = copy_square(p.y.as_slice(), p.luma_width, x0, y0, 16);
    let b0: [u8; 64] = predict_luma_block(source, &y, x0, y0, &here, 0);
    let b1: [u8; 64] = predict_luma_block(source, &y, x0, y0, &here, 1);
    let b2: [u8; 64] = predict_luma_block(source, &y, x0, y0, &here, 2);
    let b3: [u8; 64] = predict_luma_block(source, &y, x0, y0, &here, 3);
    let cb: [u8; 64] = predict_b_chroma(
        source,
        &reference.cb,
        &p.cb,
        reference,
        p,
        col,
        row,
        Ghost(cols),
        Ghost(rows),
    );
    let cr: [u8; 64] = predict_b_chroma(
        source,
        &reference.cr,
        &p.cr,
        reference,
        p,
        col,
        row,
        Ghost(cols),
        Ghost(rows),
    );
    let pred: [[u8; 64]; 6] = [b0, b1, b2, b3, cb, cr];
    assert(blocks::six(pred@) =~= b_predictions(source@, reference@, p@, col as int, row as int));
    pred
}

/// Which of the B-macroblock's blocks have coefficients.
fn b_coded(cbpb: Option<u8>) -> (c: [bool; 6])
    ensures
        c@ == blocks::b_pattern(sent_pattern(cbpb)),
{
    let v: u8 = match cbpb {
        Some(v) => v,
        None => 0,
    };
    let c: [bool; 6] = [
        cbpb_block_present(v, 1),
        cbpb_block_present(v, 2),
        cbpb_block_present(v, 3),
        cbpb_block_present(v, 4),
        cbpb_block_present(v, 5),
        cbpb_block_present(v, 6),
    ];
    assert(c@ =~= blocks::b_pattern(sent_pattern(cbpb)));
    c
}

/// Decode the B-picture's half of a macroblock whose P-half is decoded, and
/// note the forward vector that predicts the next one's.
#[verifier::spinoff_prover]
pub(crate) fn decode_pb_b_part(
    r: &mut BitReader<'_>,
    mb: &H263Macroblock,
    reference: &YuvFrame,
    p_frame: &YuvFrame,
    b_frame: &mut YuvFrame,
    left: &mut Option<MotionVector>,
    pb: PbTimes,
    col: usize,
    row: usize,
    mvs4: &Mb4Mv,
    Ghost(cols): Ghost<int>,
    Ghost(rows): Ghost<int>,
) -> (res: Result<(), Error>)
    requires
        pb.wf(),
        macroblock_layer::differences_in_range(*mb),
        1 <= mb.quantiser_after <= 31,
        predictions::all_in_range(mvs4@),
        left_in_range(*old(left)),
        blocks::has_macroblocks(reference@, cols, rows),
        blocks::has_macroblocks(p_frame@, cols, rows),
        blocks::has_macroblocks(old(b_frame)@, cols, rows),
        col < cols,
        row < rows,
    ensures
        blocks::planes_read(
            b_step(
                bits::stream(*old(r)),
                bits::bits_read(*old(r)) as int,
                *mb,
                mvs4@,
                *old(left),
                reference@,
                p_frame@,
                old(b_frame)@,
                col as int,
                row as int,
                pb,
            ),
            res,
            final(b_frame)@,
            *old(r),
            *final(r),
        ),
        *final(left) == left_after(*mb, *old(left), pb),
        left_in_range(*final(left)),
        blocks::has_macroblocks(final(b_frame)@, cols, rows),
{
    let (source, next): (BSource, Option<MotionVector>) = choose_source(mb, mvs4, *left, pb);
    *left = next;
    let pred: [[u8; 64]; 6] = predict_b_macroblock(
        &source,
        reference,
        p_frame,
        col,
        row,
        Ghost(cols),
        Ghost(rows),
    );
    let coded: [bool; 6] = b_coded(mb.cbpb);
    let quant: u8 = pb_bquant(pb.dbquant, mb.quantiser_after);
    decode_predicted_macroblock(
        r,
        b_frame,
        col,
        row,
        &pred,
        &coded,
        quant,
        Ghost(cols),
        Ghost(rows),
    )
}

} // verus!
