//! Laws of pictures: where macroblocks stand, what is remembered of them, and
//! which quantiser they start from.

use crate::error::Error;
use crate::macroblock::MbType;
use crate::picture::deblocking;
use crate::picture::frame;
use crate::picture::frame::DecodeOptions;
use crate::picture::gobs;
use crate::picture::layout;
use crate::picture::layout::PictureLayout;
use crate::picture::macroblocks;
use crate::picture::macroblocks::MbPlace;
use crate::picture::shim;
use crate::picture::slices;
use crate::picture::walk;
use crate::picture::walk::{Job, Progress};
use crate::picture_header::{
    H263ExtendedPicture, H263PictureCodingType, H263PictureHeader,
};
use crate::plus_ptype::{InheritedExtendedState, PlusPictureType, PlusSourceFormat};
use crate::scal_upsample;
use crate::slice_header::SliceStart;
use vstd::prelude::*;

verus! {

/// A decoded macroblock is remembered at its own place, row by row, and at no
/// other: that it was skipped or INTRA, its vectors, its segment and its quantiser.
/// The quantiser stays in force for the macroblock behind it.
pub proof fn macroblocks_are_remembered_where_they_stand(
    s: Seq<bool>,
    at: int,
    job: Job,
    p: Progress,
    place: MbPlace,
    k: int,
)
    requires
        place.col < job.cols,
        place.row < job.rows,
        p.grid.len() == job.cols * job.rows,
        p.quants.len() == job.cols * job.rows,
        0 <= k < p.grid.len(),
        walk::with_macroblock(s, at, job, p, place) is Ok,
    ensures
        ({
            let q = walk::with_macroblock(s, at, job, p, place)->Ok_0.0;
            let (mb, body) = walk::header_at(s, at, walk::context(job, p.quant))->Ok_0;
            let d = macroblocks::macroblock_step(
                s,
                body,
                mb,
                job.reference,
                macroblocks::Before {
                    planes: p.planes,
                    known: p.known,
                    grid: p.grid,
                    cols: job.cols,
                },
                place,
                job.modes,
            )->Ok_0.0;
            let own = place.row * job.cols + place.col;
            &&& walk::header_at(s, at, walk::context(job, p.quant)) is Ok
            &&& q.planes == d.planes
            &&& q.quant == mb.quantiser_after
            &&& q.grid.len() == p.grid.len() && q.quants.len() == p.quants.len()
            &&& k == own ==> {
                &&& q.quants[k] == mb.quantiser_after
                &&& q.grid[k].not_coded <==> !mb.coded
                &&& q.grid[k].intra <==> mb.mb_type == Some(MbType::Intra) || mb.mb_type == Some(
                    MbType::IntraQ,
                )
                &&& q.grid[k].mv == d.mv
                &&& q.grid[k].mvs4 == d.mvs4
                &&& q.grid[k].segment == place.segment
            }
            &&& k != own ==> q.quants[k] == p.quants[k] && q.grid[k] == p.grid[k]
        }),
{
    reveal(walk::with_macroblock);
    scal_upsample::lemma_position(place.row as int, place.col as int, job.cols, job.rows);
    assert(job.cols * job.rows == job.rows * job.cols) by (nonlinear_arith);
}

/// A row of macroblocks starts from the quantiser of its group's header and without
/// a forward vector to its left, whatever was in force before.
pub proof fn rows_start_afresh(
    s: Seq<bool>,
    at: int,
    job: Job,
    p: Progress,
    before: Progress,
    row: int,
    end_row: int,
    top: int,
    quant: u8,
    segment: int,
)
    requires
        row < end_row,
        before == (Progress { quant: before.quant, left: before.left, ..p }),
    ensures
        gobs::with_rows_from(s, at, job, p, row, end_row, top, quant, segment)
            == gobs::with_rows_from(s, at, job, before, row, end_row, top, quant, segment),
        gobs::with_rows_from(s, at, job, p, row, row + 1, top, quant, segment)
            == gobs::with_row_from(
            s,
            at,
            job,
            Progress { quant, left: None, ..p },
            row,
            0,
            top,
            segment,
        ),
{
    reveal_with_fuel(gobs::with_rows_from, 2);
    assert(Progress { quant, left: None, ..p } == Progress { quant, left: None, ..before });
}

/// In a row the macroblocks come from the left to the right, each behind the one
/// before, and all belong to their group of blocks.
pub proof fn rows_are_filled_from_the_left(
    s: Seq<bool>,
    at: int,
    job: Job,
    p: Progress,
    row: int,
    col: int,
    top: int,
    segment: int,
)
    requires
        0 <= col < job.cols,
        job.cols <= 0x1_0000,
        0 <= row <= 0x1_0000,
        0 <= top <= 0x1_0000,
        0 <= segment <= 0x1_0000,
    ensures
        ({
            let place = gobs::gob_place(col, row, top, segment);
            let r = gobs::with_row_from(s, at, job, p, row, col, top, segment);
            &&& place.col == col
            &&& place.row == row
            &&& place.gob_top_row == top
            &&& place.gob_header_present
            &&& place.segment == segment
            &&& walk::with_macroblock(s, at, job, p, place) matches Ok((q, end)) ==> r
                == gobs::with_row_from(s, end, job, q, row, col + 1, top, segment)
            &&& walk::with_macroblock(s, at, job, p, place) matches Err(e) ==> r is Err
        }),
{
}

/// Group `g` of a picture whose groups have `k` rows begins in row `k * g` and ends
/// where the next one begins, or with the picture.
pub proof fn groups_follow_each_other(g: int, k: int, rows: int)
    requires
        0 <= g,
        1 <= k,
        k * g < rows,
    ensures
        k * g < gobs::gob_end(g, k, rows) <= rows,
        gobs::gob_end(g, k, rows) == k * (g + 1) || gobs::gob_end(g, k, rows) == rows,
        gobs::gob_end(g, k, rows) - k * g <= k,
{
    assert((g + 1) * k == k * (g + 1)) by (nonlinear_arith);
    assert(k * (g + 1) == k * g + k) by (nonlinear_arith);
}

/// Macroblock addresses count along the rows: an address stands for the column and
/// row that it is made of, and nothing above counts as another group.
pub proof fn addresses_count_along_the_rows(col: int, row: int, cols: int, segment: int)
    requires
        0 <= col < cols,
        cols <= 0x1_0000,
        0 <= row <= 0x1_0000,
        0 <= segment <= 0x1_0000,
    ensures
        slices::slice_place(row * cols + col, cols, segment).col == col,
        slices::slice_place(row * cols + col, cols, segment).row == row,
        !slices::slice_place(row * cols + col, cols, segment).gob_header_present,
        slices::slice_place(row * cols + col, cols, segment).segment == segment,
{
    scal_upsample::lemma_position(row, col, cols, row + 1);
}

/// A picture is smoothed where the caller asks for it, and else stays as it was
/// decoded.
pub proof fn pictures_are_smoothed_on_request(p: Progress, aic: bool)
    ensures
        gobs::finished(p, DecodeOptions { deblock: false, aic }) == p.planes,
        gobs::finished(p, DecodeOptions { deblock: true, aic }) == deblocking::deblocked(
            p.planes,
            p.grid,
            p.quants,
        ),
{
}

/// A picture is decoded with the modes of its header, in macroblocks of sixteen by
/// sixteen samples.
pub proof fn headers_set_the_modes(
    header: H263PictureHeader,
    layout: PictureLayout,
    reference: Option<frame::Planes>,
    options: DecodeOptions,
)
    requires
        layout.wf(),
    ensures
        ({
            let job = gobs::job_of(header, layout, reference, options, None);
            &&& 16 * job.cols == layout.luma_width
            &&& 16 * job.rows == layout.luma_height
            &&& job.modes.umv == header.umv_mode
            &&& job.modes.advanced_prediction == header.advanced_prediction
            &&& job.modes.aic == options.aic
            &&& !job.modes.pb
            &&& job.coding_type == header.coding_type
            &&& header.coding_type == H263PictureCodingType::Inter ==> job.reference == reference
            &&& header.coding_type == H263PictureCodingType::Intra ==> job.reference is None
        }),
{
}

/// Groups of blocks have one row of macroblocks up to 400 lines, two up to 800, and
/// four beyond; there are as many as the picture's rows need.
pub proof fn custom_groups_grow_with_the_height(width: int, height: int)
    requires
        16 <= width <= 2048,
        16 <= height <= 1152,
        width % 16 == 0,
        height % 16 == 0,
    ensures
        layout::custom_layout(width, height) is Some,
        ({
            let l = layout::custom_layout(width, height)->Some_0;
            let n = l.num_gobs;
            &&& l.luma_width == width
            &&& l.luma_height == height
            &&& height <= 400 ==> l.mb_rows_per_gob == 1 && 16 * (n - 1) < height <= 16 * n
            &&& 400 < height <= 800 ==> l.mb_rows_per_gob == 2 && 32 * (n - 1) < height <= 32 * n
            &&& 800 < height ==> l.mb_rows_per_gob == 4 && 64 * (n - 1) < height <= 64 * n
        }),
{
    let k = layout::gob_rows_for_height(height);
    let n = (height + 16 * k - 1) / (16 * k);
    if height <= 400 {
        assert(n == (height + 15) / 16);
    } else if height <= 800 {
        assert(n == (height + 31) / 32);
    } else {
        assert(n == (height + 63) / 64);
    }
}

/// A picture begins without any macroblock: none is skipped or INTRA, and none
/// belongs to a segment that a macroblock can have.
pub proof fn pictures_begin_blank(job: Job, k: int)
    requires
        0 <= k < job.cols * job.rows,
    ensures
        ({
            let p = gobs::blank(job);
            &&& p.grid.len() == job.cols * job.rows
            &&& p.quants.len() == job.cols * job.rows
            &&& p.planes.width == 16 * job.cols
            &&& p.planes.height == 16 * job.rows
            &&& !p.grid[k].not_coded
            &&& !p.grid[k].intra
            &&& p.grid[k].segment == u32::MAX
            &&& p.left is None
        }),
{
}

/// A picture with an extended type is decoded with the modes that it sends: vectors
/// beyond the edge and overlapped prediction only where it is predicted, smoothing and
/// advanced INTRA coding where it or the caller asks for them.
pub proof fn extended_pictures_keep_their_modes(
    e: H263ExtendedPicture,
    options: DecodeOptions,
    inherited: InheritedExtendedState,
)
    requires
        e.plus.opptype is Some,
        shim::plus_shim(e, options, inherited) is Ok,
    ensures
        ({
            let o = e.plus.opptype->Some_0;
            let x = shim::plus_shim(e, options, inherited)->Ok_0;
            let intra = e.plus.mpptype.picture_type == PlusPictureType::Intra;
            &&& x.header.coding_type == H263PictureCodingType::Intra <==> intra
            &&& x.header.umv_mode <==> o.umv && !intra
            &&& x.header.advanced_prediction <==> o.advanced_prediction && !intra
            &&& x.options.deblock <==> o.deblocking || options.deblock
            &&& x.options.aic <==> o.advanced_intra || options.aic
            &&& x.slice_structured is Some <==> o.slice_structured
            &&& x.improved_pb <==> e.plus.mpptype.picture_type == PlusPictureType::ImprovedPb
            &&& x.header.temporal_reference == e.prefix.temporal_reference
            &&& !x.header.sac_mode
            &&& !o.sac && !o.modified_quantization && !o.alternative_inter_vlc
            &&& o.source_format == PlusSourceFormat::Qcif ==> x.layout.luma_width == 176
                && x.layout.luma_height == 144
            &&& o.source_format == PlusSourceFormat::Cif ==> x.layout.luma_width == 352
                && x.layout.luma_height == 288
            &&& o.source_format == PlusSourceFormat::SubQcif ==> x.layout.luma_width == 128
                && x.layout.luma_height == 96
            &&& o.source_format == PlusSourceFormat::Cif4 ==> x.layout.luma_width == 704
                && x.layout.luma_height == 576
            &&& o.source_format == PlusSourceFormat::Cif16 ==> x.layout.luma_width == 1408
                && x.layout.luma_height == 1152
        }),
{
}

/// A slice starts from the quantiser of its header, whatever was in force before.
pub proof fn slices_start_from_their_quantiser(
    s: Seq<bool>,
    at: int,
    job: Job,
    p: Progress,
    before: Progress,
    done: Seq<bool>,
    start: SliceStart,
    prev: Option<u32>,
    segment: int,
)
    requires
        before == (Progress { quant: before.quant, ..p }),
    ensures
        slices::with_slices_from(s, at, job, p, done, start, prev, segment)
            == slices::with_slices_from(s, at, job, before, done, start, prev, segment),
        prev is None && start.mba < job.cols * job.rows ==> (slices::with_slice_from(
            s,
            at,
            job,
            Progress { quant: start.squant, ..p },
            done,
            start.mba as int,
            segment,
        ) is Err ==> slices::with_slices_from(
            s,
            at,
            job,
            p,
            done,
            start,
            prev,
            segment,
        ) is Err),
{
    assert(Progress { quant: start.squant, ..p } == Progress { quant: start.squant, ..before });
}

/// In a slice the macroblocks come in the order of their addresses, each behind the one
/// before and none twice.
pub proof fn slices_are_filled_in_order(
    s: Seq<bool>,
    at: int,
    job: Job,
    p: Progress,
    done: Seq<bool>,
    addr: int,
    segment: int,
)
    requires
        0 <= addr,
        slices::with_slice_from(s, at, job, p, done, addr, segment) is Ok,
    ensures
        ({
            let (c, end) = slices::with_slice_from(s, at, job, p, done, addr, segment)->Ok_0;
            let m = walk::with_macroblock(
                s,
                at,
                job,
                p,
                slices::slice_place(addr, job.cols, segment),
            );
            &&& !done[addr]
            &&& m is Ok
            &&& c.next > addr
            &&& c.next == addr + 1 ==> c.progress == m->Ok_0.0 && end == m->Ok_0.1
            &&& c.next > addr + 1 ==> slices::with_slice_from(
                s,
                m->Ok_0.1,
                job,
                m->Ok_0.0,
                done.update(addr, true),
                addr + 1,
                segment,
            ) == Ok::<_, Error>((c, end))
        }),
    decreases job.cols * job.rows - addr,
{
    let m = walk::with_macroblock(s, at, job, p, slices::slice_place(addr, job.cols, segment));
    if let Ok((q, next)) = m {
        if addr + 1 < job.cols * job.rows {
            if slices::with_slice_from(
                s,
                next,
                job,
                q,
                done.update(addr, true),
                addr + 1,
                segment,
            ) is Ok {
                slices_are_filled_in_order(
                    s,
                    next,
                    job,
                    q,
                    done.update(addr, true),
                    addr + 1,
                    segment,
                );
            }
        }
    }
}

} // verus!
