//! Pictures that are divided into groups of blocks.
//!
//! Every group has a header; the quantiser goes back to the header's at the
//! start of every macroblock row.

use super::aic_state;
use super::aic_state::AicState;
use super::b_part::PbTimes;
use super::blocks;
use super::deblocking;
use super::deblocking::apply_deblocking;
use super::frame;
use super::frame::{DecodeOptions, YuvFrame};
use super::grid;
use super::grid::MbGridEntry;
use super::layout::PictureLayout;
use super::macroblocks;
use super::macroblocks::{MbModes, MbPlace};
use super::walk;
use super::walk::{decode_macroblock_at, PictureJob, PictureState};
use crate::bits;
use crate::error::Error;
use crate::gob_header;
use crate::gob_header::{parse_gob_layer, GobHeader};
use crate::picture_header::{H263PictureCodingType, H263PictureHeader};
use oxideav_core::bits::BitReader;
use vstd::prelude::*;

verus! {

/// The place of a macroblock of the group of blocks number `segment`.
pub open spec fn gob_place(col: int, row: int, top: int, segment: int) -> MbPlace {
    MbPlace {
        col: col as usize,
        row: row as usize,
        gob_top_row: top as usize,
        gob_header_present: true,
        segment: segment as u32,
    }
}

/// The picture with the macroblocks of a row from column `col` on.
pub open spec fn with_row_from(
    s: Seq<bool>,
    at: int,
    job: walk::Job,
    p: walk::Progress,
    row: int,
    col: int,
    top: int,
    segment: int,
) -> walk::WalkStep
    decreases job.cols - col,
{
    if col >= job.cols {
        Ok((p, at))
    } else {
        match walk::with_macroblock(s, at, job, p, gob_place(col, row, top, segment)) {
            Err(e) => Err(e),
            Ok((q, end)) => with_row_from(s, end, job, q, row, col + 1, top, segment),
        }
    }
}

/// The picture with the rows from `row` up to `end_row`.
pub open spec fn with_rows_from(
    s: Seq<bool>,
    at: int,
    job: walk::Job,
    p: walk::Progress,
    row: int,
    end_row: int,
    top: int,
    quant: u8,
    segment: int,
) -> walk::WalkStep
    decreases end_row - row,
{
    if row >= end_row {
        Ok((p, at))
    } else {
        match with_row_from(
            s,
            at,
            job,
            walk::Progress { quant, left: None, ..p },
            row,
            0,
            top,
            segment,
        ) {
            Err(e) => Err(e),
            Ok((q, end)) => with_rows_from(
                s,
                end,
                job,
                q,
                row + 1,
                end_row,
                top,
                quant,
                segment,
            ),
        }
    }
}

/// The row behind the last one of group `g`.
pub open spec fn gob_end(g: int, rows_per_gob: int, rows: int) -> int {
    if (g + 1) * rows_per_gob < rows {
        (g + 1) * rows_per_gob
    } else {
        rows
    }
}

/// The picture with the groups of blocks from `g` on.
pub open spec fn with_gobs_from(
    s: Seq<bool>,
    at: int,
    job: walk::Job,
    p: walk::Progress,
    g: int,
    gobs: int,
    rows_per_gob: int,
) -> walk::WalkStep
    decreases gobs - g,
{
    if g >= gobs {
        Ok((p, at))
    } else {
        match gob_header::gob_at(s, at) {
            Err(e) => Err(e),
            Ok((h, body)) => match with_rows_from(
                s,
                body,
                job,
                p,
                g * rows_per_gob,
                gob_end(g, rows_per_gob, job.rows),
                g * rows_per_gob,
                h.quantiser,
                g,
            ) {
                Err(e) => Err(e),
                Ok((q, end)) => with_gobs_from(s, end, job, q, g + 1, gobs, rows_per_gob),
            },
        }
    }
}

/// A picture before its first macroblock.
pub open spec fn blank(job: walk::Job) -> walk::Progress {
    let w = 16 * job.cols;
    let h = 16 * job.rows;
    walk::Progress {
        planes: frame::uniform_planes(0, w, h),
        b: if job.pb is Some {
            frame::uniform_planes(0, w, h)
        } else {
            frame::uniform_planes(0, 0, 0)
        },
        known: aic_state::fresh_picture(job.cols, job.rows),
        grid: Seq::new((job.cols * job.rows) as nat, |i: int| grid::outside_entry()),
        quants: Seq::new((job.cols * job.rows) as nat, |i: int| 0u8),
        quant: 0,
        left: None,
    }
}

/// What holds for a whole picture, by its header.
pub open spec fn job_of(
    header: H263PictureHeader,
    layout: PictureLayout,
    reference: Option<frame::Planes>,
    options: DecodeOptions,
    pb: Option<PbTimes>,
) -> walk::Job {
    walk::Job {
        coding_type: header.coding_type,
        modes: MbModes {
            umv: header.umv_mode,
            advanced_prediction: header.advanced_prediction,
            pb: pb is Some,
            aic: options.aic,
        },
        pb,
        reference: if header.coding_type == H263PictureCodingType::Inter {
            reference
        } else {
            None
        },
        cols: layout.luma_width as int / 16,
        rows: layout.luma_height as int / 16,
    }
}

/// An INTER picture has a reference, and of its own size.
pub open spec fn reference_serves(
    header: H263PictureHeader,
    layout: PictureLayout,
    reference: Option<frame::Planes>,
) -> bool {
    header.coding_type == H263PictureCodingType::Inter ==> (reference matches Some(r) && r.width
        == layout.luma_width && r.height == layout.luma_height)
}

/// The finished picture, smoothed where that is asked for.
pub open spec fn finished(p: walk::Progress, options: DecodeOptions) -> frame::Planes {
    if options.deblock {
        deblocking::deblocked(p.planes, p.grid, p.quants)
    } else {
        p.planes
    }
}

/// A picture of groups of blocks is refused before anything of it is read.
pub open spec fn gobs_refused(
    header: H263PictureHeader,
    layout: PictureLayout,
    reference: Option<frame::Planes>,
    pb: Option<PbTimes>,
) -> bool {
    header.sac_mode || header.pb_frames != pb is Some || !reference_serves(
        header,
        layout,
        reference,
    )
}

/// The reference is stored without gaps, if the picture looks at it: it does not
/// where it is INTRA or refused, as one with a reference of another size is.
pub open spec fn reference_sound(
    header: H263PictureHeader,
    layout: PictureLayout,
    reference: Option<frame::Planes>,
    pb: Option<PbTimes>,
) -> bool {
    header.coding_type == H263PictureCodingType::Inter && !gobs_refused(
        header,
        layout,
        reference,
        pb,
    ) ==> (reference matches Some(f) ==> f.stored())
}

/// The picture with all its groups of blocks, the first of which starts at bit
/// `at`.
pub open spec fn all_gobs(
    s: Seq<bool>,
    at: int,
    job: walk::Job,
    layout: PictureLayout,
) -> walk::WalkStep {
    with_gobs_from(
        s,
        at,
        job,
        blank(job),
        0,
        layout.num_gobs as int,
        layout.mb_rows_per_gob as int,
    )
}

/// The picture whose first group of blocks starts at bit `at`, and its
/// B-picture.
pub open spec fn gob_picture(
    s: Seq<bool>,
    at: int,
    header: H263PictureHeader,
    layout: PictureLayout,
    reference: Option<frame::Planes>,
    options: DecodeOptions,
    pb: Option<PbTimes>,
) -> Result<(frame::Planes, frame::Planes), Error> {
    let job = job_of(header, layout, reference, options, pb);
    if gobs_refused(header, layout, reference, pb) {
        Err(Error::NotImplemented)
    } else {
        match all_gobs(s, at, job, layout) {
            Err(e) => Err(e),
            Ok((p, _)) => Ok((finished(p, options), p.b)),
        }
    }
}

/// The quantisers of the first `n` macroblocks are set.
pub open spec fn set_up_to(quants: Seq<u8>, n: int) -> bool {
    forall|i: int| 0 <= i < n && i < quants.len() ==> 1 <= #[trigger] quants[i] <= 31
}

/// Decode a row of macroblocks.
#[verifier::spinoff_prover]
fn decode_row(
    r: &mut BitReader<'_>,
    job: &PictureJob<'_>,
    st: &mut PictureState,
    row: usize,
    top: usize,
    segment: u32,
) -> (res: Result<(), Error>)
    requires
        old(st)@.fits(job@),
        row < job.mb_rows,
        set_up_to(old(st)@.quants, row * job.mb_cols),
    ensures
        walk::walked(
            with_row_from(
                bits::stream(*old(r)),
                bits::bits_read(*old(r)) as int,
                job@,
                old(st)@,
                row as int,
                0,
                top as int,
                segment as int,
            ),
            res,
            final(st)@,
            *old(r),
            *final(r),
        ),
        res is Ok ==> final(st)@.fits(job@),
        res is Ok ==> set_up_to(final(st)@.quants, (row + 1) * job.mb_cols),
{
    let ghost s = bits::stream(*r);
    let ghost whole = with_row_from(
        s,
        bits::bits_read(*r) as int,
        job@,
        st@,
        row as int,
        0,
        top as int,
        segment as int,
    );
    let mut col: usize = 0;
    while col < job.mb_cols
        invariant
            col <= job.mb_cols,
            row < job.mb_rows,
            s == bits::stream(*old(r)),
            bits::moved_on(*old(r), *r),
            st@.fits(job@),
            set_up_to(st@.quants, row * job.mb_cols + col),
            whole == with_row_from(
                s,
                bits::bits_read(*old(r)) as int,
                job@,
                old(st)@,
                row as int,
                0,
                top as int,
                segment as int,
            ),
            whole == with_row_from(
                s,
                bits::bits_read(*r) as int,
                job@,
                st@,
                row as int,
                col as int,
                top as int,
                segment as int,
            ),
        decreases job.mb_cols - col,
    {
        let place: MbPlace = MbPlace {
            col,
            row,
            gob_top_row: top,
            gob_header_present: true,
            segment,
        };
        assert(place == gob_place(col as int, row as int, top as int, segment as int));
        proof {
            walk::lemma_place_inside(job@, place);
        }
        decode_macroblock_at(r, job, st, place)?;
        col = col + 1;
    }
    assert((row + 1) * job.mb_cols == row * job.mb_cols + job.mb_cols) by (nonlinear_arith);
    Ok(())
}

/// Decode the rows of a group of blocks.
#[verifier::spinoff_prover]
fn decode_rows(
    r: &mut BitReader<'_>,
    job: &PictureJob<'_>,
    st: &mut PictureState,
    top: usize,
    end_row: usize,
    quant: u8,
    segment: u32,
) -> (res: Result<(), Error>)
    requires
        old(st)@.fits(job@),
        top <= end_row <= job.mb_rows,
        set_up_to(old(st)@.quants, top * job.mb_cols),
    ensures
        walk::walked(
            with_rows_from(
                bits::stream(*old(r)),
                bits::bits_read(*old(r)) as int,
                job@,
                old(st)@,
                top as int,
                end_row as int,
                top as int,
                quant,
                segment as int,
            ),
            res,
            final(st)@,
            *old(r),
            *final(r),
        ),
        res is Ok ==> final(st)@.fits(job@),
        res is Ok ==> set_up_to(final(st)@.quants, end_row * job.mb_cols),
{
    let ghost s = bits::stream(*r);
    let ghost whole = with_rows_from(
        s,
        bits::bits_read(*r) as int,
        job@,
        st@,
        top as int,
        end_row as int,
        top as int,
        quant,
        segment as int,
    );
    let mut row: usize = top;
    while row < end_row
        invariant
            top <= row <= end_row,
            end_row <= job.mb_rows,
            s == bits::stream(*old(r)),
            bits::moved_on(*old(r), *r),
            st@.fits(job@),
            set_up_to(st@.quants, row * job.mb_cols),
            whole == with_rows_from(
                s,
                bits::bits_read(*old(r)) as int,
                job@,
                old(st)@,
                top as int,
                end_row as int,
                top as int,
                quant,
                segment as int,
            ),
            whole == with_rows_from(
                s,
                bits::bits_read(*r) as int,
                job@,
                st@,
                row as int,
                end_row as int,
                top as int,
                quant,
                segment as int,
            ),
        decreases end_row - row,
    {
        let ghost p = st@;
        st.quant = quant;
        st.left = None;
        assert(st@ == walk::Progress { quant, left: None, ..p });
        decode_row(r, job, st, row, top, segment)?;
        row = row + 1;
    }
    Ok(())
}

/// Decode the groups of blocks of a picture.
#[verifier::spinoff_prover]
fn decode_gobs(
    r: &mut BitReader<'_>,
    job: &PictureJob<'_>,
    st: &mut PictureState,
    layout: &PictureLayout,
) -> (res: Result<(), Error>)
    requires
        old(st)@.fits(job@),
        layout.wf(),
        job.mb_rows == layout.luma_height as int / 16,
    ensures
        walk::walked(
            with_gobs_from(
                bits::stream(*old(r)),
                bits::bits_read(*old(r)) as int,
                job@,
                old(st)@,
                0,
                layout.num_gobs as int,
                layout.mb_rows_per_gob as int,
            ),
            res,
            final(st)@,
            *old(r),
            *final(r),
        ),
        res is Ok ==> final(st)@.fits(job@),
        res is Ok ==> deblocking::quantisers_set(final(st)@.quants),
{
    let gobs: usize = layout.num_gobs as usize;
    let per: usize = layout.mb_rows_per_gob as usize;
    let ghost s = bits::stream(*r);
    let ghost whole = with_gobs_from(
        s,
        bits::bits_read(*r) as int,
        job@,
        st@,
        0,
        gobs as int,
        per as int,
    );
    let mut g: usize = 0;
    let mut top: usize = 0;
    while g < gobs
        invariant
            g <= gobs <= 72,
            gobs == layout.num_gobs,
            per == layout.mb_rows_per_gob,
            1 <= per <= 4,
            top == if g * per < job.mb_rows {
                g * per
            } else {
                job.mb_rows as int
            },
            g < gobs ==> top == g * per,
            (gobs - 1) * per < job.mb_rows,
            job.mb_rows <= 72,
            s == bits::stream(*old(r)),
            bits::moved_on(*old(r), *r),
            st@.fits(job@),
            set_up_to(st@.quants, top * job.mb_cols),
            whole == with_gobs_from(
                s,
                bits::bits_read(*old(r)) as int,
                job@,
                old(st)@,
                0,
                gobs as int,
                per as int,
            ),
            whole == with_gobs_from(
                s,
                bits::bits_read(*r) as int,
                job@,
                st@,
                g as int,
                gobs as int,
                per as int,
            ),
        decreases gobs - g,
    {
        let gob: GobHeader = parse_gob_layer(r)?;
        assert((g + 1) * per == g * per + per) by (nonlinear_arith);
        let end_row: usize = if top + per < job.mb_rows {
            top + per
        } else {
            job.mb_rows
        };
        decode_rows(r, job, st, top, end_row, gob.quantiser, g as u32)?;
        assert(g + 1 < gobs ==> (g + 1) * per < job.mb_rows) by {
            if g + 1 < gobs {
                assert((g + 1) * per <= (gobs - 1) * per) by (nonlinear_arith)
                    requires
                        g + 1 <= gobs - 1,
                        per >= 1,
                ;
            }
        }
        g = g + 1;
        top = end_row;
    }
    proof {
        assert(top == job.mb_rows);
        assert(job.mb_rows * job.mb_cols == job.mb_cols * job.mb_rows) by (nonlinear_arith);
        assert(deblocking::quantisers_set(st@.quants));
    }
    Ok(())
}

/// A grid of `n` macroblocks not yet decoded.
fn outside_grid(n: usize) -> (v: Vec<MbGridEntry>)
    ensures
        grid::entries(v@) == Seq::new(n as nat, |i: int| grid::outside_entry()),
{
    let mut v: Vec<MbGridEntry> = Vec::new();
    let mut i: usize = 0;
    while i < n
        invariant
            i <= n,
            v@.len() == i,
            forall|k: int| 0 <= k < i ==> (#[trigger] v@[k])@ == grid::outside_entry(),
        decreases n - i,
    {
        v.push(MbGridEntry::outside());
        i = i + 1;
    }
    assert(grid::entries(v@) =~= Seq::new(n as nat, |i: int| grid::outside_entry()));
    v
}

/// `n` zeros.
fn no_quantisers(n: usize) -> (v: Vec<u8>)
    ensures
        v@ == Seq::new(n as nat, |i: int| 0u8),
{
    let mut v: Vec<u8> = Vec::new();
    let mut i: usize = 0;
    while i < n
        invariant
            i <= n,
            v@.len() == i,
            forall|k: int| 0 <= k < i ==> #[trigger] v@[k] == 0,
        decreases n - i,
    {
        v.push(0);
        i = i + 1;
    }
    assert(v@ =~= Seq::new(n as nat, |i: int| 0u8));
    v
}

/// The state of a picture before its first macroblock.
#[verifier::spinoff_prover]
pub fn start_picture(job: &PictureJob<'_>) -> (st: PictureState)
    requires
        1 <= job.mb_cols <= 128,
        1 <= job.mb_rows <= 72,
        job.pb matches Some(pb) ==> pb.wf(),
        job@.reference matches Some(r) ==> blocks::has_macroblocks(r, job@.cols, job@.rows),
    ensures
        st@ == blank(job@),
        st@.fits(job@),
{
    let cols: usize = job.mb_cols;
    let rows: usize = job.mb_rows;
    assert(cols * rows <= 128 * 72) by (nonlinear_arith)
        requires
            cols <= 128,
            rows <= 72,
    ;
    assert((16 * cols) * (16 * rows) == 256 * (cols * rows)) by (nonlinear_arith);
    assert((2 * cols) * (2 * rows) == 4 * (cols * rows)) by (nonlinear_arith);
    let w: usize = 16 * cols;
    let h: usize = 16 * rows;
    let b_frame: YuvFrame = match job.pb {
        Some(_) => YuvFrame::uniform(0, w, h),
        None => YuvFrame::uniform(0, 0, 0),
    };
    let st: PictureState = PictureState {
        frame: YuvFrame::uniform(0, w, h),
        b_frame,
        aic: AicState::new(cols, rows),
        grid: outside_grid(cols * rows),
        quants: no_quantisers(cols * rows),
        quant: 0,
        left: None,
    };
    st
}

/// Decode the groups of blocks of a picture whose header has been read.
#[verifier::spinoff_prover]
pub fn decode_after_picture_header(
    r: &mut BitReader<'_>,
    header: &H263PictureHeader,
    layout: &PictureLayout,
    reference: Option<&YuvFrame>,
    options: DecodeOptions,
    pb: Option<PbTimes>,
) -> (res: Result<(YuvFrame, YuvFrame), Error>)
    requires
        layout.wf(),
        reference_sound(*header, *layout, macroblocks::planes_of(reference), pb),
        pb matches Some(t) ==> t.wf(),
    ensures
        match gob_picture(
            bits::stream(*old(r)),
            bits::bits_read(*old(r)) as int,
            *header,
            *layout,
            macroblocks::planes_of(reference),
            options,
            pb,
        ) {
            Ok((p, b)) => res matches Ok((f, g)) && f@ == p && g@ == b,
            Err(e) => res == Err::<(YuvFrame, YuvFrame), Error>(e),
        },
        res matches Ok((f, g)) ==> f@.stored() && (pb is Some ==> g@.stored()),
        bits::moved_on(*old(r), *final(r)),
        gobs_refused(*header, *layout, macroblocks::planes_of(reference), pb) ==> bits::bits_read(
            *final(r),
        ) == bits::bits_read(*old(r)),
        res is Ok ==> (all_gobs(
            bits::stream(*old(r)),
            bits::bits_read(*old(r)) as int,
            job_of(*header, *layout, macroblocks::planes_of(reference), options, pb),
            *layout,
        ) matches Ok((p, end)) && bits::bits_read(*final(r)) == end),
{
    if header.sac_mode || header.pb_frames != pb.is_some() {
        return Err(Error::NotImplemented);
    }
    let job: PictureJob<'_> = set_up(header, layout, reference, options, pb)?;
    let mut st: PictureState = start_picture(&job);
    decode_gobs(r, &job, &mut st, layout)?;
    Ok(finish_picture(st, &job, options))
}

/// Find what holds for a whole picture.
#[verifier::spinoff_prover]
pub fn set_up<'a>(
    header: &H263PictureHeader,
    layout: &PictureLayout,
    reference: Option<&'a YuvFrame>,
    options: DecodeOptions,
    pb: Option<PbTimes>,
) -> (res: Result<PictureJob<'a>, Error>)
    requires
        layout.wf(),
        header.coding_type == H263PictureCodingType::Inter && reference_serves(
            *header,
            *layout,
            macroblocks::planes_of(reference),
        ) ==> (reference matches Some(f) ==> f@.stored()),
    ensures
        ({
            let planes = macroblocks::planes_of(reference);
            if reference_serves(*header, *layout, planes) {
                &&& res matches Ok(job)
                &&& job@ == job_of(*header, *layout, planes, options, pb)
                &&& job@.reference matches Some(f) ==> blocks::has_macroblocks(
                    f,
                    job@.cols,
                    job@.rows,
                )
                &&& 1 <= job.mb_cols <= 128
                &&& 1 <= job.mb_rows <= 72
            } else {
                res == Err::<PictureJob<'a>, Error>(Error::NotImplemented)
            }
        }),
{
    let w: usize = layout.luma_width as usize;
    let h: usize = layout.luma_height as usize;
    let used: Option<&YuvFrame> = match header.coding_type {
        H263PictureCodingType::Intra => None,
        H263PictureCodingType::Inter => {
            match reference {
                None => {
                    return Err(Error::NotImplemented);
                },
                Some(f) => {
                    if f.luma_width != w || f.luma_height != h {
                        return Err(Error::NotImplemented);
                    }
                    Some(f)
                },
            }
        },
    };
    Ok(
        PictureJob {
            coding_type: header.coding_type,
            modes: MbModes {
                umv: header.umv_mode,
                advanced_prediction: header.advanced_prediction,
                pb: pb.is_some(),
                aic: options.aic,
            },
            pb,
            reference: used,
            mb_cols: w / 16,
            mb_rows: h / 16,
        },
    )
}

/// Smooth a picture where that is asked for, and give it and its B-picture.
pub fn finish_picture(st: PictureState, job: &PictureJob<'_>, options: DecodeOptions) -> (frames: (
    YuvFrame,
    YuvFrame,
))
    requires
        st@.fits(job@),
        deblocking::quantisers_set(st@.quants),
    ensures
        frames.0@ == finished(st@, options),
        frames.1@ == st@.b,
        frames.0@.stored(),
{
    let PictureState { frame, b_frame, aic, grid, quants, quant, left } = st;
    let mut out: YuvFrame = frame;
    if options.deblock {
        apply_deblocking(
            &mut out,
            grid.as_slice(),
            quants.as_slice(),
            job.mb_cols,
            job.mb_rows,
        );
    }
    (out, b_frame)
}

/// An INTRA picture is decoded without looking at the reference.
pub proof fn intra_pictures_ignore_the_reference(
    s: Seq<bool>,
    at: int,
    header: H263PictureHeader,
    layout: PictureLayout,
    one: Option<frame::Planes>,
    other: Option<frame::Planes>,
    options: DecodeOptions,
    pb: Option<PbTimes>,
)
    requires
        header.coding_type == H263PictureCodingType::Intra,
    ensures
        gob_picture(s, at, header, layout, one, options, pb) == gob_picture(
            s,
            at,
            header,
            layout,
            other,
            options,
            pb,
        ),
{
}

/// An INTER picture is refused without a reference of its own size.
pub proof fn inter_pictures_need_a_reference(
    s: Seq<bool>,
    at: int,
    header: H263PictureHeader,
    layout: PictureLayout,
    reference: Option<frame::Planes>,
    options: DecodeOptions,
    pb: Option<PbTimes>,
)
    requires
        header.coding_type == H263PictureCodingType::Inter,
        reference matches Some(r) ==> r.width != layout.luma_width || r.height
            != layout.luma_height,
    ensures
        gob_picture(s, at, header, layout, reference, options, pb) == Err::<
            (frame::Planes, frame::Planes),
            Error,
        >(Error::NotImplemented),
{
}

} // verus!
