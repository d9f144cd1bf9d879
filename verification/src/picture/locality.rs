//! What a macroblock changes of a picture: its own samples, and no others.

use super::aic_blocks;
use super::aic_state;
use super::b_part;
use super::blocks;
use super::frame;
use super::grid;
use super::macroblocks;
use super::macroblocks::{MbModes, MbPlace};
use super::predictions;
use super::walk;
use crate::b_picture;
use crate::error::Error;
use crate::macroblock;
use crate::macroblock::{H263Macroblock, IntraMode, MbContext, MbType};
use crate::macroblock_layer;
use crate::motion;
use vstd::prelude::*;

verus! {

/// The sample at index `k` lies in the square of side `n` at (`x0`, `y0`).
pub open spec fn in_square(k: int, stride: int, x0: int, y0: int, n: int) -> bool {
    x0 <= k % stride < x0 + n && y0 <= k / stride < y0 + n
}

/// Two planes agree outside a square.
pub open spec fn unchanged_outside(
    before: Seq<u8>,
    after: Seq<u8>,
    stride: int,
    x0: int,
    y0: int,
    n: int,
) -> bool {
    &&& after.len() == before.len()
    &&& forall|k: int|
        0 <= k < before.len() && !in_square(k, stride, x0, y0, n) ==> #[trigger] after[k]
            == before[k]
}

/// Two planes agree inside a square.
pub open spec fn equal_inside(
    a: Seq<u8>,
    b: Seq<u8>,
    stride: int,
    x0: int,
    y0: int,
    n: int,
) -> bool {
    forall|k: int|
        0 <= k < a.len() && in_square(k, stride, x0, y0, n) ==> #[trigger] a[k] == b[k]
}

/// A macroblock's samples are all that differs between two frames.
pub open spec fn only_macroblock_changed(
    before: frame::Planes,
    after: frame::Planes,
    col: int,
    row: int,
) -> bool {
    &&& after.width == before.width
    &&& after.height == before.height
    &&& unchanged_outside(before.y, after.y, before.width, 16 * col, 16 * row, 16)
    &&& unchanged_outside(before.cb, after.cb, before.width / 2, 8 * col, 8 * row, 8)
    &&& unchanged_outside(before.cr, after.cr, before.width / 2, 8 * col, 8 * row, 8)
}

/// A macroblock has the same samples in two frames.
pub open spec fn macroblock_copied(
    a: frame::Planes,
    b: frame::Planes,
    col: int,
    row: int,
) -> bool {
    &&& equal_inside(a.y, b.y, a.width, 16 * col, 16 * row, 16)
    &&& equal_inside(a.cb, b.cb, a.width / 2, 8 * col, 8 * row, 8)
    &&& equal_inside(a.cr, b.cr, a.width / 2, 8 * col, 8 * row, 8)
}

/// A plane step changes nothing outside a square.
spec fn step_within(
    before: Seq<u8>,
    r: blocks::PlaneStep,
    stride: int,
    x0: int,
    y0: int,
    n: int,
) -> bool {
    r matches Ok((after, end)) ==> unchanged_outside(before, after, stride, x0, y0, n)
}

/// One more INTRA block inside the square.
proof fn lemma_intra_block(
    before: Seq<u8>,
    r: blocks::PlaneStep,
    s: Seq<bool>,
    stride: int,
    x: int,
    y: int,
    has_ac: bool,
    quant: int,
    x0: int,
    y0: int,
    n: int,
)
    requires
        step_within(before, r, stride, x0, y0, n),
        x0 <= x,
        x + 8 <= x0 + n,
        y0 <= y,
        y + 8 <= y0 + n,
    ensures
        step_within(
            before,
            blocks::then_intra_block(r, s, stride, x, y, has_ac, quant),
            stride,
            x0,
            y0,
            n,
        ),
{
    reveal(blocks::then_intra_block);
}

/// One more predicted block inside the square.
proof fn lemma_predicted_block(
    before: Seq<u8>,
    r: blocks::PlaneStep,
    s: Seq<bool>,
    stride: int,
    x: int,
    y: int,
    prediction: Seq<u8>,
    coded: bool,
    quant: int,
    x0: int,
    y0: int,
    n: int,
)
    requires
        step_within(before, r, stride, x0, y0, n),
        x0 <= x,
        x + 8 <= x0 + n,
        y0 <= y,
        y + 8 <= y0 + n,
    ensures
        step_within(
            before,
            blocks::then_predicted_block(r, s, stride, x, y, prediction, coded, quant),
            stride,
            x0,
            y0,
            n,
        ),
{
    reveal(blocks::then_predicted_block);
}

/// An INTRA macroblock changes only its own samples.
proof fn lemma_intra_macroblock(
    s: Seq<bool>,
    at: int,
    p: frame::Planes,
    col: int,
    row: int,
    coded: Seq<bool>,
    quant: int,
)
    ensures
        blocks::intra_macroblock_at(s, at, p, col, row, coded, quant) matches Ok((q, end))
            ==> only_macroblock_changed(p, q, col, row),
{
    let w = p.width;
    let x0 = 16 * col;
    let y0 = 16 * row;
    let r0: blocks::PlaneStep = Ok((p.y, at));
    let r1 = blocks::then_intra_block(
        r0,
        s,
        w,
        blocks::luma_x(col, 0),
        blocks::luma_y(row, 0),
        coded[0],
        quant,
    );
    let r2 = blocks::then_intra_block(
        r1,
        s,
        w,
        blocks::luma_x(col, 1),
        blocks::luma_y(row, 1),
        coded[1],
        quant,
    );
    let r3 = blocks::then_intra_block(
        r2,
        s,
        w,
        blocks::luma_x(col, 2),
        blocks::luma_y(row, 2),
        coded[2],
        quant,
    );
    lemma_intra_block(p.y, r0, s, w, x0, y0, coded[0], quant, x0, y0, 16);
    lemma_intra_block(p.y, r1, s, w, x0 + 8, y0, coded[1], quant, x0, y0, 16);
    lemma_intra_block(p.y, r2, s, w, x0, y0 + 8, coded[2], quant, x0, y0, 16);
    lemma_intra_block(p.y, r3, s, w, x0 + 8, y0 + 8, coded[3], quant, x0, y0, 16);
    if let Ok((y, p1)) = blocks::intra_luma_at(s, at, p.y, w, col, row, coded, quant) {
        let cb0: blocks::PlaneStep = Ok((p.cb, p1));
        lemma_intra_block(
            p.cb,
            cb0,
            s,
            w / 2,
            8 * col,
            8 * row,
            coded[4],
            quant,
            8 * col,
            8 * row,
            8,
        );
        if let Ok((cb, p2)) = blocks::then_intra_block(
            cb0,
            s,
            w / 2,
            8 * col,
            8 * row,
            coded[4],
            quant,
        ) {
            let cr0: blocks::PlaneStep = Ok((p.cr, p2));
            lemma_intra_block(
                p.cr,
                cr0,
                s,
                w / 2,
                8 * col,
                8 * row,
                coded[5],
                quant,
                8 * col,
                8 * row,
                8,
            );
        }
    }
}

/// A predicted macroblock changes only its own samples.
proof fn lemma_predicted_macroblock(
    s: Seq<bool>,
    at: int,
    p: frame::Planes,
    col: int,
    row: int,
    pred: Seq<Seq<u8>>,
    coded: Seq<bool>,
    quant: int,
)
    ensures
        blocks::predicted_macroblock_at(s, at, p, col, row, pred, coded, quant) matches Ok((q, end))
            ==> only_macroblock_changed(p, q, col, row),
{
    let w = p.width;
    let x0 = 16 * col;
    let y0 = 16 * row;
    let r0: blocks::PlaneStep = Ok((p.y, at));
    let r1 = blocks::then_predicted_block(
        r0,
        s,
        w,
        blocks::luma_x(col, 0),
        blocks::luma_y(row, 0),
        pred[0],
        coded[0],
        quant,
    );
    let r2 = blocks::then_predicted_block(
        r1,
        s,
        w,
        blocks::luma_x(col, 1),
        blocks::luma_y(row, 1),
        pred[1],
        coded[1],
        quant,
    );
    let r3 = blocks::then_predicted_block(
        r2,
        s,
        w,
        blocks::luma_x(col, 2),
        blocks::luma_y(row, 2),
        pred[2],
        coded[2],
        quant,
    );
    lemma_predicted_block(p.y, r0, s, w, x0, y0, pred[0], coded[0], quant, x0, y0, 16);
    lemma_predicted_block(p.y, r1, s, w, x0 + 8, y0, pred[1], coded[1], quant, x0, y0, 16);
    lemma_predicted_block(p.y, r2, s, w, x0, y0 + 8, pred[2], coded[2], quant, x0, y0, 16);
    lemma_predicted_block(p.y, r3, s, w, x0 + 8, y0 + 8, pred[3], coded[3], quant, x0, y0, 16);
    if let Ok((y, p1)) = blocks::predicted_luma_at(s, at, p.y, w, col, row, pred, coded, quant) {
        let cb0: blocks::PlaneStep = Ok((p.cb, p1));
        lemma_predicted_block(
            p.cb,
            cb0,
            s,
            w / 2,
            8 * col,
            8 * row,
            pred[4],
            coded[4],
            quant,
            8 * col,
            8 * row,
            8,
        );
        if let Ok((cb, p2)) = blocks::then_predicted_block(
            cb0,
            s,
            w / 2,
            8 * col,
            8 * row,
            pred[4],
            coded[4],
            quant,
        ) {
            let cr0: blocks::PlaneStep = Ok((p.cr, p2));
            lemma_predicted_block(
                p.cr,
                cr0,
                s,
                w / 2,
                8 * col,
                8 * row,
                pred[5],
                coded[5],
                quant,
                8 * col,
                8 * row,
                8,
            );
        }
    }
}

/// A plane step with Advanced INTRA Coding changes nothing outside a square.
spec fn aic_step_within(
    before: Seq<u8>,
    r: aic_blocks::AicStep,
    stride: int,
    x0: int,
    y0: int,
    n: int,
) -> bool {
    r matches Ok(((after, known), end)) ==> unchanged_outside(before, after, stride, x0, y0, n)
}

/// One more block with Advanced INTRA Coding inside the square.
proof fn lemma_aic_block(
    before: Seq<u8>,
    r: aic_blocks::AicStep,
    s: Seq<bool>,
    stride: int,
    bx: int,
    by: int,
    coded: bool,
    mode: IntraMode,
    quant: int,
    segment: u32,
    x0: int,
    y0: int,
    n: int,
)
    requires
        aic_step_within(before, r, stride, x0, y0, n),
        x0 <= 8 * bx,
        8 * bx + 8 <= x0 + n,
        y0 <= 8 * by,
        8 * by + 8 <= y0 + n,
    ensures
        aic_step_within(
            before,
            aic_blocks::then_aic_block(r, s, stride, bx, by, coded, mode, quant, segment),
            stride,
            x0,
            y0,
            n,
        ),
{
    reveal(aic_blocks::then_aic_block);
}

/// A macroblock with Advanced INTRA Coding changes only its own samples.
proof fn lemma_aic_macroblock(
    s: Seq<bool>,
    at: int,
    p: frame::Planes,
    known: aic_state::AicPicture,
    col: int,
    row: int,
    coded: Seq<bool>,
    mode: IntraMode,
    quant: int,
    segment: u32,
)
    ensures
        aic_blocks::aic_macroblock_at(
            s,
            at,
            p,
            known,
            col,
            row,
            coded,
            mode,
            quant,
            segment,
        ) matches Ok(((q, k), end)) ==> only_macroblock_changed(p, q, col, row),
{
    let w = p.width;
    let x0 = 16 * col;
    let y0 = 16 * row;
    let x = 2 * col;
    let y = 2 * row;
    let r0: aic_blocks::AicStep = Ok(((p.y, known.luma), at));
    let r1 = aic_blocks::then_aic_block(r0, s, w, x, y, coded[0], mode, quant, segment);
    let r2 = aic_blocks::then_aic_block(r1, s, w, x + 1, y, coded[1], mode, quant, segment);
    let r3 = aic_blocks::then_aic_block(r2, s, w, x, y + 1, coded[2], mode, quant, segment);
    lemma_aic_block(p.y, r0, s, w, x, y, coded[0], mode, quant, segment, x0, y0, 16);
    lemma_aic_block(p.y, r1, s, w, x + 1, y, coded[1], mode, quant, segment, x0, y0, 16);
    lemma_aic_block(p.y, r2, s, w, x, y + 1, coded[2], mode, quant, segment, x0, y0, 16);
    lemma_aic_block(p.y, r3, s, w, x + 1, y + 1, coded[3], mode, quant, segment, x0, y0, 16);
    if let Ok(((luma, k), p1)) = aic_blocks::aic_luma_at(
        s,
        at,
        p.y,
        known.luma,
        w,
        col,
        row,
        coded,
        mode,
        quant,
        segment,
    ) {
        let cb0: aic_blocks::AicStep = Ok(((p.cb, known.cb), p1));
        lemma_aic_block(
            p.cb,
            cb0,
            s,
            w / 2,
            col,
            row,
            coded[4],
            mode,
            quant,
            segment,
            8 * col,
            8 * row,
            8,
        );
        if let Ok(((cb, kcb), p2)) = aic_blocks::then_aic_block(
            cb0,
            s,
            w / 2,
            col,
            row,
            coded[4],
            mode,
            quant,
            segment,
        ) {
            let cr0: aic_blocks::AicStep = Ok(((p.cr, known.cr), p2));
            lemma_aic_block(
                p.cr,
                cr0,
                s,
                w / 2,
                col,
                row,
                coded[5],
                mode,
                quant,
                segment,
                8 * col,
                8 * row,
                8,
            );
        }
    }
}

/// A block predicted without motion is the reference's block.
proof fn lemma_resting_block(reference: Seq<u8>, w: int, h: int, x: int, y: int, i: int)
    requires
        reference.len() == w * h,
        0 <= x,
        x + 8 <= w,
        0 <= y,
        y + 8 <= h,
        0 <= i < 64,
    ensures
        motion::predicted_block(reference, w, h, x, y, motion::zero_vector(), 0)[i] == reference[(y
            + i / 8) * w + (x + i % 8)],
{
}

/// A block that is put where it stands in the reference makes the plane agree
/// with the reference there.
proof fn lemma_copied_block(plane: Seq<u8>, reference: Seq<u8>, w: int, h: int, x: int, y: int)
    requires
        plane.len() == w * h,
        reference.len() == w * h,
        0 <= x,
        x + 8 <= w,
        0 <= y,
        y + 8 <= h,
    ensures
        equal_inside(
            frame::blitted(
                plane,
                w,
                x,
                y,
                motion::predicted_block(reference, w, h, x, y, motion::zero_vector(), 0),
            ),
            reference,
            w,
            x,
            y,
            8,
        ),
{
    let block = motion::predicted_block(reference, w, h, x, y, motion::zero_vector(), 0);
    let after = frame::blitted(plane, w, x, y, block);
    assert forall|k: int| 0 <= k < after.len() && in_square(k, w, x, y, 8) implies #[trigger] after[k]
        == reference[k] by {
        let dx = k % w - x;
        let dy = k / w - y;
        lemma_resting_block(reference, w, h, x, y, 8 * dy + dx);
        vstd::arithmetic::div_mod::lemma_fundamental_div_mod(k, w);
        assert(w * (k / w) == (k / w) * w) by (nonlinear_arith);
        assert((8 * dy + dx) / 8 == dy && (8 * dy + dx) % 8 == dx);
    }
}

/// A skipped macroblock becomes a copy of the reference's.
proof fn lemma_skipped_macroblock(
    s: Seq<bool>,
    at: int,
    p: frame::Planes,
    reference: frame::Planes,
    cols: int,
    rows: int,
    col: int,
    row: int,
    quant: int,
)
    requires
        blocks::has_macroblocks(p, cols, rows),
        blocks::has_macroblocks(reference, cols, rows),
        0 <= col < cols,
        0 <= row < rows,
    ensures
        blocks::predicted_macroblock_at(
            s,
            at,
            p,
            col,
            row,
            predictions::by_one_vector(reference, col, row, motion::zero_vector()),
            macroblocks::none_coded(),
            quant,
        ) matches Ok((q, end)) && end == at && macroblock_copied(q, reference, col, row),
{
    reveal(blocks::then_predicted_block);
    let w = p.width;
    let h = p.height;
    let zero = motion::zero_vector();
    assert(motion::chroma_vector(zero) == zero);
    let b0 = predictions::luma_by(reference, col, row, 0, zero);
    let b1 = predictions::luma_by(reference, col, row, 1, zero);
    let b2 = predictions::luma_by(reference, col, row, 2, zero);
    let b3 = predictions::luma_by(reference, col, row, 3, zero);
    let x0 = 16 * col;
    let y0 = 16 * row;
    let y1 = frame::blitted(p.y, w, x0, y0, b0);
    let y2 = frame::blitted(y1, w, x0 + 8, y0, b1);
    let y3 = frame::blitted(y2, w, x0, y0 + 8, b2);
    let y4 = frame::blitted(y3, w, x0 + 8, y0 + 8, b3);
    lemma_copied_block(p.y, reference.y, w, h, x0, y0);
    lemma_copied_block(y1, reference.y, w, h, x0 + 8, y0);
    lemma_copied_block(y2, reference.y, w, h, x0, y0 + 8);
    lemma_copied_block(y3, reference.y, w, h, x0 + 8, y0 + 8);
    assert(blocks::predicted_luma_at(
        s,
        at,
        p.y,
        w,
        col,
        row,
        predictions::by_one_vector(reference, col, row, zero),
        macroblocks::none_coded(),
        quant,
    ) == Ok::<(Seq<u8>, int), Error>((y4, at)));
    assert forall|k: int| 0 <= k < y4.len() && in_square(k, w, x0, y0, 16) implies #[trigger] y4[k]
        == reference.y[k] by {
        if in_square(k, w, x0 + 8, y0 + 8, 8) {
        } else if in_square(k, w, x0, y0 + 8, 8) {
            assert(y4[k] == y3[k]);
        } else if in_square(k, w, x0 + 8, y0, 8) {
            assert(y4[k] == y3[k] && y3[k] == y2[k]);
        } else {
            assert(in_square(k, w, x0, y0, 8));
            assert(y4[k] == y3[k] && y3[k] == y2[k] && y2[k] == y1[k]);
        }
    }
    lemma_copied_block(p.cb, reference.cb, w / 2, h / 2, 8 * col, 8 * row);
    lemma_copied_block(p.cr, reference.cr, w / 2, h / 2, 8 * col, 8 * row);
}

/// The macroblock's own step changes only its own samples.
proof fn lemma_macroblock_step(
    s: Seq<bool>,
    at: int,
    mb: H263Macroblock,
    reference: Option<frame::Planes>,
    b: macroblocks::Before,
    place: MbPlace,
    modes: MbModes,
)
    ensures
        macroblocks::macroblock_step(s, at, mb, reference, b, place, modes) matches Ok((d, end))
            ==> only_macroblock_changed(b.planes, d.planes, place.col as int, place.row as int),
{
    reveal(macroblocks::macroblock_step);
    let col = place.col as int;
    let row = place.row as int;
    let quant = mb.quantiser_after as int;
    let inter = blocks::inter_pattern(
        macroblocks::pattern(mb.cbpy),
        macroblocks::pattern(mb.cbpc),
    );
    let intra = blocks::intra_pattern(
        macroblocks::pattern(mb.cbpy),
        macroblocks::pattern(mb.cbpc),
    );
    if !mb.coded {
        if let Some(r) = reference {
            lemma_predicted_macroblock(
                s,
                at,
                b.planes,
                col,
                row,
                predictions::by_one_vector(r, col, row, motion::zero_vector()),
                macroblocks::none_coded(),
                quant,
            );
        }
    } else if let Some(t) = mb.mb_type {
        if t.four_vectors() {
            if let (Some(r), Some(mvds)) = (reference, macroblocks::four_differences(mb)) {
                let mvs = predictions::four_vectors(
                    grid::around(b.grid, b.cols, col, row),
                    macroblocks::at_top(place),
                    place.col + 1 >= b.cols,
                    modes.umv,
                    mvds,
                );
                lemma_predicted_macroblock(
                    s,
                    at,
                    b.planes,
                    col,
                    row,
                    predictions::by_four_vectors(r, b.grid, b.cols, col, row, mvs),
                    inter,
                    quant,
                );
            }
        } else if !t.intra() {
            if let (Some(r), Some(d)) = (reference, mb.mvd) {
                let mv = macroblocks::sent_vector(b, d, place, modes);
                lemma_predicted_macroblock(
                    s,
                    at,
                    b.planes,
                    col,
                    row,
                    predictions::by_one_vector(r, col, row, mv),
                    inter,
                    quant,
                );
            }
        } else if modes.aic {
            if let Some(mode) = mb.intra_mode {
                lemma_aic_macroblock(
                    s,
                    at,
                    b.planes,
                    b.known,
                    col,
                    row,
                    intra,
                    mode,
                    quant,
                    place.segment,
                );
            }
        } else {
            lemma_intra_macroblock(s, at, b.planes, col, row, intra, quant);
        }
    }
}

/// The macroblock's B-half changes only its own samples.
proof fn lemma_b_half(
    s: Seq<bool>,
    at: int,
    mb: H263Macroblock,
    d: macroblocks::Decoded,
    job: walk::Job,
    p: walk::Progress,
    place: MbPlace,
)
    ensures
        walk::b_half(s, at, mb, d, job, p, place) matches Ok(((b, left), end))
            ==> only_macroblock_changed(p.b, b, place.col as int, place.row as int),
{
    if let (Some(pb), Some(r)) = (job.pb, job.reference) {
        lemma_predicted_macroblock(
            s,
            at,
            p.b,
            place.col as int,
            place.row as int,
            b_part::b_predictions(
                b_part::b_source(mb, d.mvs4, p.left, pb),
                r,
                d.planes,
                place.col as int,
                place.row as int,
            ),
            blocks::b_pattern(b_part::sent_pattern(mb.cbpb)),
            b_picture::b_quantiser(pb.dbquant as int, mb.quantiser_after as int),
        );
    }
}

/// A macroblock changes only its own samples, in the picture and in the
/// B-picture, and only its own entries of the grid and of the quantisers.
pub proof fn macroblocks_change_only_themselves(
    s: Seq<bool>,
    at: int,
    job: walk::Job,
    p: walk::Progress,
    place: MbPlace,
)
    requires
        p.grid.len() == job.cols * job.rows,
        p.quants.len() == job.cols * job.rows,
        place.col < job.cols,
        place.row < job.rows,
    ensures
        walk::with_macroblock(s, at, job, p, place) matches Ok((q, end)) ==> {
            let i = place.row * job.cols + place.col;
            let col = place.col as int;
            let row = place.row as int;
            &&& only_macroblock_changed(p.planes, q.planes, col, row)
            &&& only_macroblock_changed(p.b, q.b, col, row)
            &&& q.grid == p.grid.update(i, q.grid[i])
            &&& q.quants == p.quants.update(i, q.quants[i])
        },
{
    reveal(walk::with_macroblock);
    walk::lemma_place_inside(job, place);
    let i = place.row * job.cols + place.col;
    if let Ok((mb, body)) = walk::header_at(s, at, walk::context(job, p.quant)) {
        let b = macroblocks::Before {
            planes: p.planes,
            known: p.known,
            grid: p.grid,
            cols: job.cols,
        };
        lemma_macroblock_step(s, body, mb, job.reference, b, place, job.modes);
        if let Ok((d, behind)) = macroblocks::macroblock_step(
            s,
            body,
            mb,
            job.reference,
            b,
            place,
            job.modes,
        ) {
            lemma_b_half(s, behind, mb, d, job, p, place);
            if let Ok((q, end)) = walk::with_macroblock(s, at, job, p, place) {
                assert(q.grid =~= p.grid.update(i, q.grid[i]));
                assert(q.quants =~= p.quants.update(i, q.quants[i]));
            }
        }
    }
}

/// The header of a skipped macroblock has nothing else in it.
proof fn lemma_skipped_header(s: Seq<bool>, at: int, ctx: MbContext)
    ensures
        walk::header_at(s, at, ctx) matches Ok((mb, end)) ==> !mb.coded ==> mb
            == macroblock::bare_macroblock(false, ctx.quantiser_before),
    decreases s.len() - at,
{
    reveal(macroblock_layer::macroblock_at);
    walk::lemma_stuffing_end(s, at, ctx);
    if let Ok((mb, end)) = macroblock_layer::macroblock_at(s, at, ctx) {
        if mb.mb_type == Some(MbType::Stuffing) {
            lemma_skipped_header(s, end, ctx);
        }
    }
}

/// Where the P-macroblock is a copy of the reference's, prediction from both
/// without motion gives the reference's block.
proof fn lemma_resting_b_block(
    reference: Seq<u8>,
    plane: Seq<u8>,
    w: int,
    h: int,
    x0: int,
    y0: int,
    n: int,
    x: int,
    y: int,
)
    requires
        reference.len() == w * h,
        plane.len() == w * h,
        n == 8 || n == 16,
        0 <= x0,
        x0 + n <= w,
        0 <= y0,
        y0 + n <= h,
        0 <= x,
        x + 8 <= n,
        0 <= y,
        y + 8 <= n,
        equal_inside(plane, reference, w, x0, y0, n),
    ensures
        ({
            let still = motion::predicted_block(
                reference,
                w,
                h,
                x0 + x,
                y0 + y,
                motion::zero_vector(),
                0,
            );
            b_picture::blended_block(
                still,
                b_picture::square(plane, w, x0, y0, n),
                n,
                x,
                y,
                motion::zero_vector(),
            ) == still
        }),
{
    let zero = motion::zero_vector();
    let still = motion::predicted_block(reference, w, h, x0 + x, y0 + y, zero, 0);
    let current = b_picture::square(plane, w, x0, y0, n);
    let both = b_picture::blended_block(still, current, n, x, y, zero);
    assert forall|k: int| 0 <= k < 64 implies both[k] == still[k] by {
        let a = x + k % 8;
        let b = y + k / 8;
        lemma_resting_block(reference, w, h, x0 + x, y0 + y, k);
        crate::scal_upsample::lemma_position(b, a, n, n);
        crate::scal_upsample::lemma_position(y0 + b, x0 + a, w, h);
        let i = (y0 + b) * w + (x0 + a);
        assert(in_square(i, w, x0, y0, n));
        assert(plane[i] == reference[i]);
        assert(current[b * n + a] == plane[(y0 + b) * w + x0 + a]);
        assert(motion::at_half(current, n, n, 2 * a, 2 * b, 0) == current[b * n + a]);
    }
    assert(both =~= still);
}

/// Where the P-macroblock is a copy of the reference's, prediction from both
/// without motion gives the reference's macroblock.
proof fn lemma_resting_b_predictions(
    reference: frame::Planes,
    p: frame::Planes,
    cols: int,
    rows: int,
    col: int,
    row: int,
    pb: b_part::PbTimes,
)
    requires
        pb.wf(),
        blocks::has_macroblocks(reference, cols, rows),
        blocks::has_macroblocks(p, cols, rows),
        0 <= col < cols,
        0 <= row < rows,
        macroblock_copied(p, reference, col, row),
    ensures
        b_part::b_predictions(
            b_part::from_both(grid::zero_vectors(), b_part::difference(None), pb),
            reference,
            p,
            col,
            row,
        ) == predictions::by_one_vector(reference, col, row, motion::zero_vector()),
{
    let zero = motion::zero_vector();
    let diff = b_part::difference(None);
    let w = p.width;
    let h = p.height;
    b_picture::resting_macroblocks_stay(pb.trb as int, pb.trd as int);
    let forward = b_picture::forward_vectors(
        grid::zero_vectors(),
        diff,
        pb.trb as int,
        pb.trd as int,
    );
    let backward = b_picture::backward_vectors(
        grid::zero_vectors(),
        diff,
        pb.trb as int,
        pb.trd as int,
    );
    assert(forward =~= grid::zero_vectors());
    assert(backward =~= grid::zero_vectors());
    assert(motion::chroma_vector_of_four(grid::zero_vectors()) == zero);
    assert(motion::chroma_vector(zero) == zero);
    lemma_resting_b_block(reference.y, p.y, w, h, 16 * col, 16 * row, 16, 0, 0);
    lemma_resting_b_block(reference.y, p.y, w, h, 16 * col, 16 * row, 16, 8, 0);
    lemma_resting_b_block(reference.y, p.y, w, h, 16 * col, 16 * row, 16, 0, 8);
    lemma_resting_b_block(reference.y, p.y, w, h, 16 * col, 16 * row, 16, 8, 8);
    lemma_resting_b_block(reference.cb, p.cb, w / 2, h / 2, 8 * col, 8 * row, 8, 0, 0);
    lemma_resting_b_block(reference.cr, p.cr, w / 2, h / 2, 8 * col, 8 * row, 8, 0, 0);
    assert(b_part::b_predictions(
        b_part::from_both(grid::zero_vectors(), diff, pb),
        reference,
        p,
        col,
        row,
    ) =~= predictions::by_one_vector(reference, col, row, zero));
}

/// The B-half of a skipped macroblock becomes a copy of the reference's.
proof fn lemma_skipped_b_half(
    s: Seq<bool>,
    at: int,
    quant: u8,
    d: macroblocks::Decoded,
    job: walk::Job,
    p: walk::Progress,
    place: MbPlace,
)
    requires
        p.sized(job),
        place.col < job.cols,
        place.row < job.rows,
        job.pb is Some,
        d.mvs4 == grid::zero_vectors(),
        blocks::has_macroblocks(d.planes, job.cols, job.rows),
        job.reference matches Some(r) && macroblock_copied(
            d.planes,
            r,
            place.col as int,
            place.row as int,
        ),
    ensures
        walk::b_half(
            s,
            at,
            macroblock::bare_macroblock(false, quant),
            d,
            job,
            p,
            place,
        ) matches Ok(((b, left), end)) && end == at && macroblock_copied(
            b,
            job.reference->Some_0,
            place.col as int,
            place.row as int,
        ),
{
    let pb = job.pb->Some_0;
    let r = job.reference->Some_0;
    let mb = macroblock::bare_macroblock(false, quant);
    let col = place.col as int;
    let row = place.row as int;
    assert(b_part::b_source(mb, d.mvs4, p.left, pb) == b_part::from_both(
        grid::zero_vectors(),
        b_part::difference(None),
        pb,
    ));
    lemma_resting_b_predictions(r, d.planes, job.cols, job.rows, col, row, pb);
    assert(blocks::b_pattern(0) =~= macroblocks::none_coded());
    lemma_skipped_macroblock(
        s,
        at,
        p.b,
        r,
        job.cols,
        job.rows,
        col,
        row,
        b_picture::b_quantiser(pb.dbquant as int, mb.quantiser_after as int),
    );
}

/// The frame keeps its size while a macroblock is decoded.
proof fn lemma_size_kept(before: frame::Planes, after: frame::Planes, cols: int, rows: int, col: int, row: int)
    requires
        blocks::has_macroblocks(before, cols, rows),
        only_macroblock_changed(before, after, col, row),
    ensures
        blocks::has_macroblocks(after, cols, rows),
{
}

/// A skipped macroblock is a copy of the reference's, in the picture and in the
/// B-picture.
pub proof fn skipped_macroblocks_are_copies(
    s: Seq<bool>,
    at: int,
    job: walk::Job,
    p: walk::Progress,
    place: MbPlace,
)
    requires
        p.sized(job),
        place.col < job.cols,
        place.row < job.rows,
    ensures
        walk::with_macroblock(s, at, job, p, place) matches Ok((q, end)) ==> (
        q.grid[place.row * job.cols + place.col].not_coded ==> (job.reference matches Some(r) && {
            &&& macroblock_copied(q.planes, r, place.col as int, place.row as int)
            &&& job.pb is Some ==> macroblock_copied(
                q.b,
                r,
                place.col as int,
                place.row as int,
            )
        })),
{
    reveal(walk::with_macroblock);
    walk::lemma_place_inside(job, place);
    let ctx = walk::context(job, p.quant);
    let col = place.col as int;
    let row = place.row as int;
    lemma_skipped_header(s, at, ctx);
    if let Ok((mb, body)) = walk::header_at(s, at, ctx) {
        let b = macroblocks::Before {
            planes: p.planes,
            known: p.known,
            grid: p.grid,
            cols: job.cols,
        };
        if !mb.coded {
            lemma_macroblock_step(s, body, mb, job.reference, b, place, job.modes);
            assert(macroblocks::macroblock_step(
                s,
                body,
                mb,
                job.reference,
                b,
                place,
                job.modes,
            ) == macroblocks::skipped_step(s, body, mb, job.reference, b, place, job.modes)) by {
                reveal(macroblocks::macroblock_step);
            }
            if let Some(r) = job.reference {
                lemma_skipped_macroblock(
                    s,
                    body,
                    p.planes,
                    r,
                    job.cols,
                    job.rows,
                    col,
                    row,
                    mb.quantiser_after as int,
                );
                if let Ok((d, behind)) = macroblocks::macroblock_step(
                    s,
                    body,
                    mb,
                    job.reference,
                    b,
                    place,
                    job.modes,
                ) {
                    lemma_size_kept(p.planes, d.planes, job.cols, job.rows, col, row);
                    if job.pb is Some {
                        lemma_skipped_b_half(s, behind, mb.quantiser_after, d, job, p, place);
                    }
                }
            }
        }
    }
}

} // verus!
