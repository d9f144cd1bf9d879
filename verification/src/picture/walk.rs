//! A picture in the course of being decoded, macroblock by macroblock.

use super::aic_state;
use super::aic_state::AicState;
use super::b_part;
use super::b_part::{decode_pb_b_part, PbTimes};
use super::blocks;
use super::frame;
use super::frame::YuvFrame;
use super::grid;
use super::grid::{record_grid, MbGridEntry};
use super::macroblocks;
use super::macroblocks::{decode_one_macroblock, MbModes, MbPlace};
use super::predictions;
use crate::bits;
use crate::error::Error;
use crate::macroblock::{H263Macroblock, MbContext, MbType};
use crate::macroblock_layer;
use crate::macroblock_layer::parse_macroblock;
use crate::motion::{Mb4Mv, MotionVector};
use crate::picture_header::H263PictureCodingType;
use crate::scal_upsample;
use crate::vlc;
use oxideav_core::bits::BitReader;
use vstd::prelude::*;

verus! {

/// What holds for a whole picture.
#[derive(Clone, Copy)]
pub struct PictureJob<'a> {
    pub coding_type: H263PictureCodingType,
    pub modes: MbModes,
    /// What the header says of the B-picture, where there is one.
    pub pb: Option<PbTimes>,
    /// The picture that this one is predicted from.
    pub reference: Option<&'a YuvFrame>,
    pub mb_cols: usize,
    pub mb_rows: usize,
}

/// What holds for a whole picture, the reference as its samples.
pub struct Job {
    pub coding_type: H263PictureCodingType,
    pub modes: MbModes,
    pub pb: Option<PbTimes>,
    pub reference: Option<frame::Planes>,
    pub cols: int,
    pub rows: int,
}

impl<'a> View for PictureJob<'a> {
    type V = Job;

    open spec fn view(&self) -> Job {
        Job {
            coding_type: self.coding_type,
            modes: self.modes,
            pb: self.pb,
            reference: macroblocks::planes_of(self.reference),
            cols: self.mb_cols as int,
            rows: self.mb_rows as int,
        }
    }
}

/// A picture as far as it is decoded.
pub struct PictureState {
    pub frame: YuvFrame,
    /// The B-picture, where there is one.
    pub b_frame: YuvFrame,
    pub aic: AicState,
    pub grid: Vec<MbGridEntry>,
    /// The quantiser of every macroblock.
    pub quants: Vec<u8>,
    /// The quantiser in force.
    pub quant: u8,
    /// The forward vector of the B-macroblock to the left.
    pub left: Option<MotionVector>,
}

/// A picture as far as it is decoded, as sequences.
pub struct Progress {
    pub planes: frame::Planes,
    pub b: frame::Planes,
    pub known: aic_state::AicPicture,
    pub grid: Seq<grid::Entry>,
    pub quants: Seq<u8>,
    pub quant: u8,
    pub left: Option<MotionVector>,
}

impl View for PictureState {
    type V = Progress;

    open spec fn view(&self) -> Progress {
        Progress {
            planes: self.frame@,
            b: self.b_frame@,
            known: self.aic@,
            grid: grid::entries(self.grid@),
            quants: self.quants@,
            quant: self.quant,
            left: self.left,
        }
    }
}

/// A picture as far as it is decoded, and the bit behind that.
pub type WalkStep = Result<(Progress, int), Error>;

impl Progress {
    /// The picture has the size that its job says.
    pub open spec fn sized(self, job: Job) -> bool {
        &&& blocks::has_macroblocks(self.planes, job.cols, job.rows)
        &&& self.grid.len() == job.cols * job.rows
        &&& self.quants.len() == job.cols * job.rows
        &&& job.reference matches Some(r) ==> blocks::has_macroblocks(r, job.cols, job.rows)
        &&& job.pb matches Some(pb) ==> pb.wf() && blocks::has_macroblocks(
            self.b,
            job.cols,
            job.rows,
        )
    }

    /// The picture has the size that its job says, and what is known of its
    /// macroblocks can be used to predict the next.
    pub open spec fn fits(self, job: Job) -> bool {
        &&& self.sized(job)
        &&& self.known.has_size(job.cols, job.rows)
        &&& grid::grid_in_range(self.grid)
        &&& b_part::left_in_range(self.left)
    }
}

/// What the parser of a macroblock header has to know.
pub open spec fn context(job: Job, quant: u8) -> MbContext {
    MbContext {
        picture_coding_type: job.coding_type,
        advanced_prediction: job.modes.advanced_prediction,
        aic_intra_mode: job.modes.aic,
        pb_frames: job.modes.pb,
        pb_annex_m: job.pb matches Some(pb) && pb.annex_m,
        quantiser_before: quant,
        modified_quant: false,
        deblocking_filter: false,
    }
}

/// Stuffing has at least one bit.
pub proof fn lemma_stuffing_end(s: Seq<bool>, at: int, ctx: MbContext)
    ensures
        macroblock_layer::macroblock_at(s, at, ctx) matches Ok((mb, end)) ==> mb.mb_type == Some(
            MbType::Stuffing,
        ) ==> at < end <= s.len(),
{
    reveal(macroblock_layer::macroblock_at);
    vlc::lemma_mcbpc_end(s, at);
    vlc::lemma_mcbpc_end(s, at + 1);
}

/// The macroblock header at bit `at`, with any stuffing before it passed over.
pub open spec fn header_at(s: Seq<bool>, at: int, ctx: MbContext) -> macroblock_layer::Step
    decreases s.len() - at,
{
    proof {
        lemma_stuffing_end(s, at, ctx);
    }
    match macroblock_layer::macroblock_at(s, at, ctx) {
        Err(e) => Err(e),
        Ok((mb, end)) => if mb.mb_type == Some(MbType::Stuffing) {
            header_at(s, end, ctx)
        } else {
            Ok((mb, end))
        },
    }
}

/// The B-picture behind a macroblock whose B-half starts at bit `at`, and the
/// forward vector that predicts the next one's.
pub open spec fn b_half(
    s: Seq<bool>,
    at: int,
    mb: H263Macroblock,
    d: macroblocks::Decoded,
    job: Job,
    p: Progress,
    place: MbPlace,
) -> Result<((frame::Planes, Option<MotionVector>), int), Error> {
    match (job.pb, job.reference) {
        (None, _) => Ok(((p.b, p.left), at)),
        (Some(pb), None) => Err(Error::NotImplemented),
        (Some(pb), Some(r)) => match b_part::b_step(
            s,
            at,
            mb,
            d.mvs4,
            p.left,
            r,
            d.planes,
            p.b,
            place.col as int,
            place.row as int,
            pb,
        ) {
            Err(e) => Err(e),
            Ok((b, end)) => Ok(((b, b_part::left_after(mb, p.left, pb)), end)),
        },
    }
}

/// The picture with the macroblock at bit `at`.
#[verifier::opaque]
pub open spec fn with_macroblock(
    s: Seq<bool>,
    at: int,
    job: Job,
    p: Progress,
    place: MbPlace,
) -> WalkStep {
    let i = place.row * job.cols + place.col;
    match header_at(s, at, context(job, p.quant)) {
        Err(e) => Err(e),
        Ok((mb, body)) => match macroblocks::macroblock_step(
            s,
            body,
            mb,
            job.reference,
            macroblocks::Before { planes: p.planes, known: p.known, grid: p.grid, cols: job.cols },
            place,
            job.modes,
        ) {
            Err(e) => Err(e),
            Ok((d, behind)) => match b_half(s, behind, mb, d, job, p, place) {
                Err(e) => Err(e),
                Ok(((b, left), end)) => Ok(
                    (
                        Progress {
                            planes: d.planes,
                            b,
                            known: d.known,
                            grid: p.grid.update(
                                i,
                                grid::recorded(mb, d.mv, d.mvs4, place.segment),
                            ),
                            quants: p.quants.update(i, mb.quantiser_after),
                            quant: mb.quantiser_after,
                            left,
                        },
                        end,
                    ),
                ),
            },
        },
    }
}

/// `res` and the state `after` are what `outcome` tells of.
pub open spec fn walked(
    outcome: WalkStep,
    res: Result<(), Error>,
    after: Progress,
    r0: BitReader,
    r1: BitReader,
) -> bool {
    &&& bits::moved_on(r0, r1)
    &&& match outcome {
        Ok((p, end)) => res is Ok && after == p && bits::bits_read(r1) == end,
        Err(e) => res == Err::<(), Error>(e),
    }
}

/// Read a macroblock header, and pass over any stuffing before it.
fn parse_header(r: &mut BitReader<'_>, ctx: MbContext) -> (res: Result<H263Macroblock, Error>)
    ensures
        bits::read_as(
            header_at(bits::stream(*old(r)), bits::bits_read(*old(r)) as int, ctx),
            res,
            *old(r),
            *final(r),
        ),
        res matches Ok(mb) ==> macroblocks::decodable(mb),
{
    let ghost s = bits::stream(*r);
    let mut mb: H263Macroblock = parse_macroblock(r, ctx)?;
    let ghost mut at = bits::bits_read(*old(r)) as int;
    while matches!(mb.mb_type, Some(MbType::Stuffing))
        invariant
            s == bits::stream(*old(r)),
            bits::moved_on(*old(r), *r),
            at >= bits::bits_read(*old(r)),
            macroblock_layer::macroblock_at(s, at, ctx) == Ok::<_, Error>(
                (mb, bits::bits_read(*r) as int),
            ),
            header_at(s, bits::bits_read(*old(r)) as int, ctx) == header_at(s, at, ctx),
            macroblocks::decodable(mb),
        decreases s.len() - at,
    {
        proof {
            lemma_stuffing_end(s, at, ctx);
            at = bits::bits_read(*r) as int;
        }
        mb = parse_macroblock(r, ctx)?;
    }
    Ok(mb)
}

/// Decode the B-half of a macroblock.
#[verifier::spinoff_prover]
fn decode_b_half(
    r: &mut BitReader<'_>,
    mb: &H263Macroblock,
    job: &PictureJob<'_>,
    frame: &YuvFrame,
    b_frame: &mut YuvFrame,
    left: &mut Option<MotionVector>,
    mvs4: &Mb4Mv,
    place: MbPlace,
    Ghost(p): Ghost<Progress>,
    Ghost(d): Ghost<macroblocks::Decoded>,
) -> (res: Result<(), Error>)
    requires
        p.fits(job@),
        p.b == old(b_frame)@,
        p.left == *old(left),
        d.planes == frame@,
        d.mvs4 == mvs4@,
        blocks::has_macroblocks(frame@, job@.cols, job@.rows),
        predictions::all_in_range(mvs4@),
        macroblocks::decodable(*mb),
        place.col < job.mb_cols,
        place.row < job.mb_rows,
    ensures
        bits::moved_on(*old(r), *final(r)),
        match b_half(
            bits::stream(*old(r)),
            bits::bits_read(*old(r)) as int,
            *mb,
            d,
            job@,
            p,
            place,
        ) {
            Ok(((b, l), end)) => res is Ok && final(b_frame)@ == b && *final(left) == l
                && bits::bits_read(*final(r)) == end,
            Err(e) => res == Err::<(), Error>(e),
        },
        job.pb is Some ==> blocks::has_macroblocks(final(b_frame)@, job@.cols, job@.rows),
        b_part::left_in_range(*final(left)),
{
    match job.pb {
        None => Ok(()),
        Some(pb) => {
            match job.reference {
                None => Err(Error::NotImplemented),
                Some(reference) => decode_pb_b_part(
                    r,
                    mb,
                    reference,
                    frame,
                    b_frame,
                    left,
                    pb,
                    place.col,
                    place.row,
                    mvs4,
                    Ghost(job@.cols),
                    Ghost(job@.rows),
                ),
            }
        },
    }
}

/// A macroblock's index lies inside the picture.
pub proof fn lemma_place_inside(job: Job, place: MbPlace)
    requires
        place.col < job.cols,
        place.row < job.rows,
    ensures
        0 <= place.row * job.cols + place.col < job.cols * job.rows,
        (place.row + 1) * job.cols <= job.cols * job.rows,
{
    scal_upsample::lemma_position(place.row as int, place.col as int, job.cols, job.rows);
    assert((place.row + 1) * job.cols <= job.cols * job.rows) by (nonlinear_arith)
        requires
            place.row + 1 <= job.rows,
            0 <= job.cols,
    ;
}

/// Decode the macroblock at `place`.
#[verifier::spinoff_prover]
pub fn decode_macroblock_at(
    r: &mut BitReader<'_>,
    job: &PictureJob<'_>,
    st: &mut PictureState,
    place: MbPlace,
) -> (res: Result<(), Error>)
    requires
        old(st)@.fits(job@),
        place.col < job.mb_cols,
        place.row < job.mb_rows,
    ensures
        walked(
            with_macroblock(
                bits::stream(*old(r)),
                bits::bits_read(*old(r)) as int,
                job@,
                old(st)@,
                place,
            ),
            res,
            final(st)@,
            *old(r),
            *final(r),
        ),
        res is Ok ==> final(st)@.fits(job@),
        res is Ok ==> 1 <= final(st)@.quant <= 31 && final(st)@.quants == old(st)@.quants.update(
            place.row * job.mb_cols + place.col,
            final(st)@.quant,
        ),
{
    let ghost p = st@;
    proof {
        reveal(with_macroblock);
        lemma_place_inside(job@, place);
    }
    let ctx: MbContext = MbContext {
        picture_coding_type: job.coding_type,
        advanced_prediction: job.modes.advanced_prediction,
        aic_intra_mode: job.modes.aic,
        pb_frames: job.modes.pb,
        pb_annex_m: match job.pb {
            Some(pb) => pb.annex_m,
            None => false,
        },
        quantiser_before: st.quant,
        modified_quant: false,
        deblocking_filter: false,
    };
    let mb: H263Macroblock = parse_header(r, ctx)?;
    let (mv, mvs4): (MotionVector, Mb4Mv) = decode_one_macroblock(
        r,
        &mb,
        job.reference,
        &mut st.frame,
        &mut st.aic,
        st.grid.as_slice(),
        job.mb_cols,
        place,
        job.modes,
        Ghost(job@.rows),
    )?;
    let ghost d = macroblocks::Decoded { planes: st.frame@, known: st.aic@, mv, mvs4: mvs4@ };
    decode_b_half(
        r,
        &mb,
        job,
        &st.frame,
        &mut st.b_frame,
        &mut st.left,
        &mvs4,
        place,
        Ghost(p),
        Ghost(d),
    )?;
    record_grid(
        st.grid.as_mut_slice(),
        st.quants.as_mut_slice(),
        job.mb_cols,
        place.col,
        place.row,
        &mb,
        mb.quantiser_after,
        mv,
        mvs4,
        place.segment,
    );
    st.quant = mb.quantiser_after;
    Ok(())
}

} // verus!
