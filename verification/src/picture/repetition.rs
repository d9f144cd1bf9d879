//! What holds of a whole picture whichever way it is divided: it has the size
//! that its header says, and its skipped macroblocks repeat the reference.

use super::b_part::PbTimes;
use super::blocks;
use super::deblocking;
use super::frame;
use super::frame::DecodeOptions;
use super::gobs;
use super::grid;
use super::layout::PictureLayout;
use super::locality;
use super::macroblocks::MbPlace;
use super::slices;
use super::walk;
use crate::bits;
use crate::deblock;
use crate::deblock::LineFilter;
use crate::gob_header;
use crate::picture_header::{H263PictureCodingType, H263PictureHeader};
use crate::plus_ptype::SliceStructuredSubmode;
use crate::scal_upsample;
use crate::slice_header;
use crate::slice_header::SliceStart;
use vstd::prelude::*;

verus! {

/// The macroblock that the sample at index `k` belongs to, in a plane with `n`
/// samples to a macroblock in each direction.
pub open spec fn owner(k: int, stride: int, n: int, cols: int) -> int {
    (k / stride / n) * cols + k % stride / n
}

/// A plane agrees with the reference in all skipped macroblocks.
pub open spec fn plane_repeats(
    plane: Seq<u8>,
    reference: Seq<u8>,
    g: Seq<grid::Entry>,
    stride: int,
    n: int,
    cols: int,
) -> bool {
    forall|k: int|
        0 <= k < plane.len() && g[owner(k, stride, n, cols)].not_coded ==> #[trigger] plane[k]
            == reference[k]
}

/// A frame agrees with the reference in all skipped macroblocks.
pub open spec fn frame_repeats(
    f: frame::Planes,
    reference: frame::Planes,
    g: Seq<grid::Entry>,
    cols: int,
) -> bool {
    &&& plane_repeats(f.y, reference.y, g, f.width, 16, cols)
    &&& plane_repeats(f.cb, reference.cb, g, f.width / 2, 8, cols)
    &&& plane_repeats(f.cr, reference.cr, g, f.width / 2, 8, cols)
}

/// The picture, and its B-picture, agree with the reference in all skipped
/// macroblocks.
pub open spec fn repeats(p: walk::Progress, job: walk::Job) -> bool {
    match job.reference {
        Some(r) => {
            &&& frame_repeats(p.planes, r, p.grid, job.cols)
            &&& job.pb is Some ==> frame_repeats(p.b, r, p.grid, job.cols)
        },
        None => forall|i: int| 0 <= i < p.grid.len() ==> !(#[trigger] p.grid[i]).not_coded,
    }
}

/// A sample belongs to a macroblock where it lies in its square.
proof fn lemma_owner(k: int, stride: int, n: int, cols: int, rows: int, col: int, row: int)
    requires
        n == 8 || n == 16,
        stride == n * cols,
        0 <= k < stride * (n * rows),
        0 <= col < cols,
        0 <= row < rows,
    ensures
        owner(k, stride, n, cols) == row * cols + col <==> locality::in_square(
            k,
            stride,
            n * col,
            n * row,
            n,
        ),
        0 <= owner(k, stride, n, cols) < cols * rows,
{
    let x = k % stride;
    let y = k / stride;
    vstd::arithmetic::div_mod::lemma_fundamental_div_mod(k, stride);
    vstd::arithmetic::div_mod::lemma_multiply_divide_lt(k, stride, n * rows);
    assert(0 <= y) by (nonlinear_arith)
        requires
            y == k / stride,
            0 <= k,
            stride > 0,
    ;
    let a = y / n;
    let b = x / n;
    if n == 8 {
        assert(0 <= a < rows && 0 <= b < cols);
        assert(a == row <==> n * row <= y < n * row + n);
        assert(b == col <==> n * col <= x < n * col + n);
    } else {
        assert(0 <= a < rows && 0 <= b < cols);
        assert(a == row <==> n * row <= y < n * row + n);
        assert(b == col <==> n * col <= x < n * col + n);
    }
    scal_upsample::lemma_position(a, b, cols, rows);
    scal_upsample::lemma_position(row, col, cols, rows);
}

/// A plane goes on to repeat the reference behind one more macroblock.
proof fn lemma_plane_step(
    before: Seq<u8>,
    after: Seq<u8>,
    reference: Seq<u8>,
    g: Seq<grid::Entry>,
    e: grid::Entry,
    stride: int,
    n: int,
    cols: int,
    rows: int,
    col: int,
    row: int,
)
    requires
        n == 8 || n == 16,
        stride == n * cols,
        before.len() == stride * (n * rows),
        g.len() == cols * rows,
        0 <= col < cols,
        0 <= row < rows,
        plane_repeats(before, reference, g, stride, n, cols),
        locality::unchanged_outside(before, after, stride, n * col, n * row, n),
        e.not_coded ==> locality::equal_inside(after, reference, stride, n * col, n * row, n),
    ensures
        plane_repeats(after, reference, g.update(row * cols + col, e), stride, n, cols),
{
    let i = row * cols + col;
    let h = g.update(i, e);
    scal_upsample::lemma_position(row, col, cols, rows);
    assert forall|k: int|
        0 <= k < after.len() && h[owner(k, stride, n, cols)].not_coded implies #[trigger] after[k]
        == reference[k] by {
        lemma_owner(k, stride, n, cols, rows, col, row);
        if owner(k, stride, n, cols) != i {
            assert(after[k] == before[k]);
            assert(g[owner(k, stride, n, cols)].not_coded);
        }
    }
}

/// A frame goes on to repeat the reference behind one more macroblock.
proof fn lemma_frame_step(
    before: frame::Planes,
    after: frame::Planes,
    reference: frame::Planes,
    g: Seq<grid::Entry>,
    e: grid::Entry,
    cols: int,
    rows: int,
    col: int,
    row: int,
)
    requires
        blocks::has_macroblocks(before, cols, rows),
        g.len() == cols * rows,
        0 <= col < cols,
        0 <= row < rows,
        frame_repeats(before, reference, g, cols),
        locality::only_macroblock_changed(before, after, col, row),
        e.not_coded ==> locality::macroblock_copied(after, reference, col, row),
    ensures
        frame_repeats(after, reference, g.update(row * cols + col, e), cols),
        blocks::has_macroblocks(after, cols, rows),
{
    let w = before.width;
    assert(w / 2 == 8 * cols && before.height / 2 == 8 * rows);
    lemma_plane_step(before.y, after.y, reference.y, g, e, w, 16, cols, rows, col, row);
    lemma_plane_step(before.cb, after.cb, reference.cb, g, e, w / 2, 8, cols, rows, col, row);
    lemma_plane_step(before.cr, after.cr, reference.cr, g, e, w / 2, 8, cols, rows, col, row);
}

/// The picture keeps its size and goes on to repeat the reference behind one
/// more macroblock.
proof fn lemma_macroblock(
    s: Seq<bool>,
    at: int,
    job: walk::Job,
    p: walk::Progress,
    place: MbPlace,
)
    requires
        p.sized(job),
        repeats(p, job),
        place.col < job.cols,
        place.row < job.rows,
    ensures
        walk::with_macroblock(s, at, job, p, place) matches Ok((q, end)) ==> q.sized(job)
            && repeats(q, job),
{
    let i = place.row * job.cols + place.col;
    let col = place.col as int;
    let row = place.row as int;
    walk::lemma_place_inside(job, place);
    locality::macroblocks_change_only_themselves(s, at, job, p, place);
    locality::skipped_macroblocks_are_copies(s, at, job, p, place);
    if let Ok((q, end)) = walk::with_macroblock(s, at, job, p, place) {
        let e = q.grid[i];
        match job.reference {
            Some(r) => {
                lemma_frame_step(
                    p.planes,
                    q.planes,
                    r,
                    p.grid,
                    e,
                    job.cols,
                    job.rows,
                    col,
                    row,
                );
                if job.pb is Some {
                    lemma_frame_step(p.b, q.b, r, p.grid, e, job.cols, job.rows, col, row);
                }
            },
            None => {
                assert forall|j: int| 0 <= j < q.grid.len() implies !(#[trigger] q.grid[j]).not_coded by {
                    if j != i {
                        assert(q.grid[j] == p.grid[j]);
                    }
                }
            },
        }
    }
}

/// The same for the rest of a row.
proof fn lemma_row(
    s: Seq<bool>,
    at: int,
    job: walk::Job,
    p: walk::Progress,
    row: int,
    col: int,
    top: int,
    segment: int,
)
    requires
        p.sized(job),
        repeats(p, job),
        0 <= row < job.rows,
        0 <= col,
    ensures
        gobs::with_row_from(s, at, job, p, row, col, top, segment) matches Ok((q, end)) ==> q.sized(
            job,
        ) && repeats(q, job),
    decreases job.cols - col,
{
    if col < job.cols {
        let place = gobs::gob_place(col, row, top, segment);
        lemma_macroblock(s, at, job, p, place);
        if let Ok((q, end)) = walk::with_macroblock(s, at, job, p, place) {
            lemma_row(s, end, job, q, row, col + 1, top, segment);
        }
    }
}

/// The same for the rest of a group's rows.
proof fn lemma_rows(
    s: Seq<bool>,
    at: int,
    job: walk::Job,
    p: walk::Progress,
    row: int,
    end_row: int,
    top: int,
    quant: u8,
    segment: int,
)
    requires
        p.sized(job),
        repeats(p, job),
        0 <= row,
        end_row <= job.rows,
    ensures
        gobs::with_rows_from(s, at, job, p, row, end_row, top, quant, segment) matches Ok((q, end))
            ==> q.sized(job) && repeats(q, job),
    decreases end_row - row,
{
    if row < end_row {
        let start = walk::Progress { quant, left: None, ..p };
        assert(start.sized(job) && repeats(start, job));
        lemma_row(s, at, job, start, row, 0, top, segment);
        if let Ok((q, end)) = gobs::with_row_from(s, at, job, start, row, 0, top, segment) {
            lemma_rows(s, end, job, q, row + 1, end_row, top, quant, segment);
        }
    }
}

/// The same for the rest of a picture's groups of blocks.
proof fn lemma_gobs(
    s: Seq<bool>,
    at: int,
    job: walk::Job,
    p: walk::Progress,
    g: int,
    count: int,
    rows_per_gob: int,
)
    requires
        p.sized(job),
        repeats(p, job),
        0 <= g,
        0 <= rows_per_gob,
    ensures
        gobs::with_gobs_from(s, at, job, p, g, count, rows_per_gob) matches Ok((q, end)) ==> q.sized(
            job,
        ) && repeats(q, job),
    decreases count - g,
{
    if g < count {
        assert(0 <= g * rows_per_gob) by (nonlinear_arith)
            requires
                0 <= g,
                0 <= rows_per_gob,
        ;
        if let Ok((h, body)) = gob_header::gob_at(s, at) {
            let top = g * rows_per_gob;
            let end_row = gobs::gob_end(g, rows_per_gob, job.rows);
            lemma_rows(s, body, job, p, top, end_row, top, h.quantiser, g);
            if let Ok((q, end)) = gobs::with_rows_from(
                s,
                body,
                job,
                p,
                top,
                end_row,
                top,
                h.quantiser,
                g,
            ) {
                lemma_gobs(s, end, job, q, g + 1, count, rows_per_gob);
            }
        }
    }
}

/// The same for the rest of a slice.
proof fn lemma_slice(
    s: Seq<bool>,
    at: int,
    job: walk::Job,
    p: walk::Progress,
    done: Seq<bool>,
    addr: int,
    segment: int,
)
    requires
        p.sized(job),
        repeats(p, job),
        0 <= addr < job.cols * job.rows,
    ensures
        slices::with_slice_from(s, at, job, p, done, addr, segment) matches Ok((c, end))
            ==> c.progress.sized(job) && repeats(c.progress, job),
    decreases job.cols * job.rows - addr,
{
    slices::lemma_address(addr, job.cols, job.rows);
    let place = slices::slice_place(addr, job.cols, segment);
    lemma_macroblock(s, at, job, p, place);
    if let Ok((q, end)) = walk::with_macroblock(s, at, job, p, place) {
        if addr + 1 < job.cols * job.rows {
            lemma_slice(s, end, job, q, done.update(addr, true), addr + 1, segment);
        }
    }
}

/// The same for the rest of a picture's slices.
proof fn lemma_slices(
    s: Seq<bool>,
    at: int,
    job: walk::Job,
    p: walk::Progress,
    done: Seq<bool>,
    start: SliceStart,
    prev: Option<u32>,
    segment: int,
)
    requires
        p.sized(job),
        repeats(p, job),
    ensures
        slices::with_slices_from(s, at, job, p, done, start, prev, segment) matches Ok((c, end))
            ==> c.progress.sized(job) && repeats(c.progress, job),
    decreases slices::addresses_left(job.cols * job.rows, prev),
{
    let count = job.cols * job.rows;
    let q = walk::Progress { quant: start.squant, ..p };
    assert(q.sized(job) && repeats(q, job));
    if !(prev matches Some(before) && start.mba <= before) && start.mba < count {
        lemma_slice(s, at, job, q, done, start.mba as int, segment);
        if let Ok((c, end)) = slices::with_slice_from(
            s,
            at,
            job,
            q,
            done,
            start.mba as int,
            segment,
        ) {
            if let Ok((_, aligned)) = slice_header::stuffing_at(s, end) {
                if let Ok((next, body)) = slice_header::slice_at(s, aligned, count) {
                    lemma_slices(
                        s,
                        body,
                        job,
                        c.progress,
                        c.done,
                        next,
                        Some(start.mba),
                        segment + 1,
                    );
                }
            }
        }
    }
}

/// What a picture's reference and B-picture data have to be.
pub open spec fn sources_fit(
    layout: PictureLayout,
    reference: Option<frame::Planes>,
    pb: Option<PbTimes>,
) -> bool {
    &&& layout.wf()
    &&& reference matches Some(r) ==> r.stored()
    &&& pb matches Some(times) ==> times.wf()
}

/// A picture that has not been begun has its size and repeats its reference.
proof fn lemma_blank(
    header: H263PictureHeader,
    layout: PictureLayout,
    reference: Option<frame::Planes>,
    options: DecodeOptions,
    pb: Option<PbTimes>,
)
    requires
        sources_fit(layout, reference, pb),
        gobs::reference_serves(header, layout, reference),
    ensures
        ({
            let job = gobs::job_of(header, layout, reference, options, pb);
            gobs::blank(job).sized(job) && repeats(gobs::blank(job), job)
        }),
{
    let job = gobs::job_of(header, layout, reference, options, pb);
    let p = gobs::blank(job);
    assert(0 <= job.cols * job.rows) by (nonlinear_arith)
        requires
            0 <= job.cols,
            0 <= job.rows,
    ;
    assert(0 <= (16 * job.cols) * (16 * job.rows)) by (nonlinear_arith)
        requires
            0 <= job.cols,
            0 <= job.rows,
    ;
    assert(0 <= (8 * job.cols) * (8 * job.rows)) by (nonlinear_arith)
        requires
            0 <= job.cols,
            0 <= job.rows,
    ;
    assert(p.sized(job));
    if let Some(r) = job.reference {
        lemma_none_repeated(p.planes.y, r.y, p.grid, p.planes.width, 16, job.cols, job.rows);
        lemma_none_repeated(p.planes.cb, r.cb, p.grid, p.planes.width / 2, 8, job.cols, job.rows);
        lemma_none_repeated(p.planes.cr, r.cr, p.grid, p.planes.width / 2, 8, job.cols, job.rows);
    }
}

/// Where no macroblock is skipped, nothing has to be repeated.
proof fn lemma_none_repeated(
    plane: Seq<u8>,
    reference: Seq<u8>,
    g: Seq<grid::Entry>,
    stride: int,
    n: int,
    cols: int,
    rows: int,
)
    requires
        n == 8 || n == 16,
        stride == n * cols,
        plane.len() == stride * (n * rows),
        g.len() == cols * rows,
        1 <= cols,
        1 <= rows,
        forall|i: int| 0 <= i < g.len() ==> !(#[trigger] g[i]).not_coded,
    ensures
        plane_repeats(plane, reference, g, stride, n, cols),
{
    assert forall|k: int|
        0 <= k < plane.len() && g[owner(k, stride, n, cols)].not_coded implies #[trigger] plane[k]
        == reference[k] by {
        lemma_owner(k, stride, n, cols, rows, 0, 0);
    }
}

/// Smoothing does not change a frame's size.
proof fn lemma_finished_size(p: walk::Progress, job: walk::Job, options: DecodeOptions)
    requires
        p.sized(job),
    ensures
        blocks::has_macroblocks(gobs::finished(p, options), job.cols, job.rows),
{
}

/// A decoded picture has the size that its layout says, and so has the
/// B-picture that comes with it.
pub proof fn pictures_have_their_size(
    s: Seq<bool>,
    at: int,
    header: H263PictureHeader,
    layout: PictureLayout,
    reference: Option<frame::Planes>,
    options: DecodeOptions,
    pb: Option<PbTimes>,
)
    requires
        sources_fit(layout, reference, pb),
    ensures
        gobs::gob_picture(s, at, header, layout, reference, options, pb) matches Ok((p, b)) ==> {
            &&& p.stored() && p.width == layout.luma_width && p.height == layout.luma_height
            &&& pb is Some ==> b.stored() && b.width == layout.luma_width && b.height
                == layout.luma_height
        },
{
    let job = gobs::job_of(header, layout, reference, options, pb);
    if gobs::reference_serves(header, layout, reference) {
        lemma_blank(header, layout, reference, options, pb);
        lemma_gobs(
            s,
            at,
            job,
            gobs::blank(job),
            0,
            layout.num_gobs as int,
            layout.mb_rows_per_gob as int,
        );
        if let Ok((p, end)) = gobs::with_gobs_from(
            s,
            at,
            job,
            gobs::blank(job),
            0,
            layout.num_gobs as int,
            layout.mb_rows_per_gob as int,
        ) {
            lemma_finished_size(p, job, options);
        }
    }
}

/// A picture that is decoded from slices has the size that its layout says.
pub proof fn sliced_pictures_have_their_size(
    s: Seq<bool>,
    at: int,
    header: H263PictureHeader,
    layout: PictureLayout,
    sss: SliceStructuredSubmode,
    reference: Option<frame::Planes>,
    options: DecodeOptions,
)
    requires
        sources_fit(layout, reference, None),
    ensures
        slices::sliced_picture(s, at, header, layout, sss, reference, options) matches Ok(p) ==> {
            p.stored() && p.width == layout.luma_width && p.height == layout.luma_height
        },
{
    let job = gobs::job_of(header, layout, reference, options, None);
    let count = job.cols * job.rows;
    if gobs::reference_serves(header, layout, reference) {
        lemma_blank(header, layout, reference, options, None);
        if let Ok((quant, p1)) = bits::field_at(s, at, 5) {
            if let Ok((mba, p2)) = slice_header::first_slice_at(s, p1, count) {
                let start = SliceStart { mba, squant: quant as u8 };
                let done = Seq::new(count as nat, |i: int| false);
                lemma_slices(s, p2, job, gobs::blank(job), done, start, None, 0);
                if let Ok((c, end)) = slices::with_slices_from(
                    s,
                    p2,
                    job,
                    gobs::blank(job),
                    done,
                    start,
                    None,
                    0,
                ) {
                    lemma_finished_size(c.progress, job, options);
                }
            }
        }
    }
}

/// All macroblocks of a picture are skipped.
pub open spec fn all_skipped(g: Seq<grid::Entry>) -> bool {
    forall|i: int| 0 <= i < g.len() ==> (#[trigger] g[i]).not_coded
}

/// The macroblock of a block lies inside the picture.
proof fn lemma_block_owner(bx: int, by: int, cols: int, rows: int, per: int)
    requires
        per == 1 || per == 2,
        0 <= bx < per * cols,
        0 <= by < per * rows,
    ensures
        0 <= deblocking::owner((bx, by), cols, per) < cols * rows,
{
    if per == 1 {
        scal_upsample::lemma_position(by, bx, cols, rows);
    } else {
        scal_upsample::lemma_position(by / 2, bx / 2, cols, rows);
    }
}

/// A pass over a picture of skipped macroblocks changes nothing.
proof fn lemma_pass_rests(
    p: deblock::Pass,
    plane: Seq<u8>,
    g: Seq<grid::Entry>,
    quants: Seq<u8>,
    cols: int,
    rows: int,
    per: int,
)
    requires
        per == 1 || per == 2,
        p.dim == 8,
        p.stride == 8 * (per * cols),
        p.upright ==> p.across == 8 * (per * cols) && p.along == 8 * (per * rows),
        !p.upright ==> p.along == 8 * (per * cols) && p.across == 8 * (per * rows),
        plane.len() == p.across * p.along,
        0 < cols,
        0 < rows,
        g.len() == cols * rows,
        all_skipped(g),
    ensures
        p.filtered(plane, deblocking::edge_filters(p, g, quants, cols, per)) == plane,
{
    let how = deblocking::edge_filters(p, g, quants, cols, per);
    assert(p.across * p.along == p.along * p.across) by (nonlinear_arith);
    assert forall|k: int| 0 <= k < plane.len() implies p.filtered(plane, how)[k] == plane[k] by {
        let u = p.u_of(k);
        let v = p.v_of(k);
        let e = p.edge_of(u);
        let b = v / 8;
        vstd::arithmetic::div_mod::lemma_fundamental_div_mod(k, p.stride);
        if p.upright {
            vstd::arithmetic::div_mod::lemma_multiply_divide_lt(k, p.stride, p.along);
        } else {
            vstd::arithmetic::div_mod::lemma_multiply_divide_lt(k, p.stride, p.across);
        }
        assert(0 <= k / p.stride) by (nonlinear_arith)
            requires
                0 <= k,
                p.stride > 0,
        ;
        if p.near_edge(u) {
            if p.upright {
                lemma_block_owner(e, b, cols, rows, per);
                lemma_block_owner(e + 1, b, cols, rows, per);
            } else {
                lemma_block_owner(b, e, cols, rows, per);
                lemma_block_owner(b, e + 1, cols, rows, per);
            }
            assert(how.dom().contains((b, e)));
            assert(how[(b, e)] == LineFilter::Leave);
        }
        deblock::only_edges_are_smoothed(p, plane, how, k);
    }
    assert(p.filtered(plane, how) =~= plane);
}

/// Smoothing a plane of skipped macroblocks changes nothing.
proof fn lemma_plane_rests(
    plane: Seq<u8>,
    width: int,
    height: int,
    g: Seq<grid::Entry>,
    quants: Seq<u8>,
    cols: int,
    rows: int,
    per: int,
)
    requires
        per == 1 || per == 2,
        width == 8 * (per * cols),
        height == 8 * (per * rows),
        plane.len() == width * height,
        0 < cols,
        0 < rows,
        g.len() == cols * rows,
        all_skipped(g),
    ensures
        deblocking::deblocked_plane(plane, width, height, g, quants, cols, per) == plane,
{
    let across = deblock::Pass {
        stride: width,
        upright: false,
        across: height,
        along: width,
        dim: 8,
    };
    let along = deblock::Pass {
        stride: width,
        upright: true,
        across: width,
        along: height,
        dim: 8,
    };
    assert(width * height == height * width) by (nonlinear_arith);
    lemma_pass_rests(across, plane, g, quants, cols, rows, per);
    lemma_pass_rests(along, plane, g, quants, cols, rows, per);
}

/// Smoothing leaves a picture of skipped macroblocks as it is.
pub proof fn smoothing_rests_on_skipped_pictures(
    p: frame::Planes,
    g: Seq<grid::Entry>,
    quants: Seq<u8>,
    cols: int,
    rows: int,
)
    requires
        blocks::has_macroblocks(p, cols, rows),
        g.len() == cols * rows,
        all_skipped(g),
    ensures
        deblocking::deblocked(p, g, quants) == p,
{
    lemma_plane_rests(p.y, p.width, p.height, g, quants, cols, rows, 2);
    lemma_plane_rests(p.cb, p.width / 2, p.height / 2, g, quants, cols, rows, 1);
    lemma_plane_rests(p.cr, p.width / 2, p.height / 2, g, quants, cols, rows, 1);
}

/// A frame whose macroblocks are all skipped is the reference.
proof fn lemma_all_repeated(
    f: frame::Planes,
    reference: frame::Planes,
    g: Seq<grid::Entry>,
    cols: int,
    rows: int,
)
    requires
        blocks::has_macroblocks(f, cols, rows),
        blocks::has_macroblocks(reference, cols, rows),
        g.len() == cols * rows,
        all_skipped(g),
        frame_repeats(f, reference, g, cols),
    ensures
        f == reference,
{
    assert(f.width / 2 == 8 * cols && f.height / 2 == 8 * rows);
    lemma_plane_repeated(f.y, reference.y, g, f.width, 16, cols, rows);
    lemma_plane_repeated(f.cb, reference.cb, g, f.width / 2, 8, cols, rows);
    lemma_plane_repeated(f.cr, reference.cr, g, f.width / 2, 8, cols, rows);
}

/// A plane whose macroblocks are all skipped is the reference's.
proof fn lemma_plane_repeated(
    plane: Seq<u8>,
    reference: Seq<u8>,
    g: Seq<grid::Entry>,
    stride: int,
    n: int,
    cols: int,
    rows: int,
)
    requires
        n == 8 || n == 16,
        stride == n * cols,
        plane.len() == stride * (n * rows),
        reference.len() == plane.len(),
        g.len() == cols * rows,
        1 <= cols,
        1 <= rows,
        all_skipped(g),
        plane_repeats(plane, reference, g, stride, n, cols),
    ensures
        plane == reference,
{
    assert forall|k: int| 0 <= k < plane.len() implies plane[k] == reference[k] by {
        lemma_owner(k, stride, n, cols, rows, 0, 0);
    }
    assert(plane =~= reference);
}

/// The skipped macroblocks of a picture repeat the reference, and so do those
/// of the B-picture that comes with it.
pub proof fn skipped_macroblocks_repeat_the_reference(
    s: Seq<bool>,
    at: int,
    header: H263PictureHeader,
    layout: PictureLayout,
    reference: Option<frame::Planes>,
    options: DecodeOptions,
    pb: Option<PbTimes>,
)
    requires
        sources_fit(layout, reference, pb),
        gobs::reference_serves(header, layout, reference),
    ensures
        ({
            let job = gobs::job_of(header, layout, reference, options, pb);
            gobs::with_gobs_from(
                s,
                at,
                job,
                gobs::blank(job),
                0,
                layout.num_gobs as int,
                layout.mb_rows_per_gob as int,
            ) matches Ok((p, end)) ==> p.sized(job) && repeats(p, job)
        }),
{
    let job = gobs::job_of(header, layout, reference, options, pb);
    lemma_blank(header, layout, reference, options, pb);
    lemma_gobs(
        s,
        at,
        job,
        gobs::blank(job),
        0,
        layout.num_gobs as int,
        layout.mb_rows_per_gob as int,
    );
}

/// A picture all of whose macroblocks are skipped is the reference again,
/// smoothed or not, and so is the B-picture that comes with it.
pub proof fn skipped_pictures_repeat_the_reference(
    s: Seq<bool>,
    at: int,
    header: H263PictureHeader,
    layout: PictureLayout,
    reference: frame::Planes,
    options: DecodeOptions,
    pb: Option<PbTimes>,
)
    requires
        sources_fit(layout, Some(reference), pb),
        gobs::reference_serves(header, layout, Some(reference)),
        header.coding_type == H263PictureCodingType::Inter,
    ensures
        ({
            let job = gobs::job_of(header, layout, Some(reference), options, pb);
            gobs::with_gobs_from(
                s,
                at,
                job,
                gobs::blank(job),
                0,
                layout.num_gobs as int,
                layout.mb_rows_per_gob as int,
            ) matches Ok((p, end)) ==> (all_skipped(p.grid) ==> gobs::finished(p, options)
                == reference && (pb is Some ==> p.b == reference))
        }),
{
    let job = gobs::job_of(header, layout, Some(reference), options, pb);
    skipped_macroblocks_repeat_the_reference(
        s,
        at,
        header,
        layout,
        Some(reference),
        options,
        pb,
    );
    if let Ok((p, end)) = gobs::with_gobs_from(
        s,
        at,
        job,
        gobs::blank(job),
        0,
        layout.num_gobs as int,
        layout.mb_rows_per_gob as int,
    ) {
        if all_skipped(p.grid) {
            lemma_all_repeated(p.planes, reference, p.grid, job.cols, job.rows);
            smoothing_rests_on_skipped_pictures(p.planes, p.grid, p.quants, job.cols, job.rows);
            if pb is Some {
                lemma_all_repeated(p.b, reference, p.grid, job.cols, job.rows);
            }
        }
    }
}

/// A picture of slices all of whose macroblocks are skipped is the reference
/// again, smoothed or not.
pub proof fn skipped_slices_repeat_the_reference(
    s: Seq<bool>,
    at: int,
    header: H263PictureHeader,
    layout: PictureLayout,
    reference: frame::Planes,
    options: DecodeOptions,
    start: SliceStart,
)
    requires
        sources_fit(layout, Some(reference), None),
        gobs::reference_serves(header, layout, Some(reference)),
        header.coding_type == H263PictureCodingType::Inter,
    ensures
        ({
            let job = gobs::job_of(header, layout, Some(reference), options, None);
            slices::with_slices_from(
                s,
                at,
                job,
                gobs::blank(job),
                Seq::new((job.cols * job.rows) as nat, |i: int| false),
                start,
                None,
                0,
            ) matches Ok((c, end)) ==> (all_skipped(c.progress.grid) ==> gobs::finished(
                c.progress,
                options,
            ) == reference)
        }),
{
    let job = gobs::job_of(header, layout, Some(reference), options, None);
    let done = Seq::new((job.cols * job.rows) as nat, |i: int| false);
    lemma_blank(header, layout, Some(reference), options, None);
    lemma_slices(s, at, job, gobs::blank(job), done, start, None, 0);
    if let Ok((c, end)) = slices::with_slices_from(
        s,
        at,
        job,
        gobs::blank(job),
        done,
        start,
        None,
        0,
    ) {
        let p = c.progress;
        if all_skipped(p.grid) {
            lemma_all_repeated(p.planes, reference, p.grid, job.cols, job.rows);
            smoothing_rests_on_skipped_pictures(p.planes, p.grid, p.quants, job.cols, job.rows);
        }
    }
}

} // verus!
