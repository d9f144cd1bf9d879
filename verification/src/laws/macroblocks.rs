//! Laws of a macroblock's blocks: which of them carry coefficients, in which
//! order, and where their samples go.

use crate::b_picture;
use crate::block_layer;
use crate::laws::vectors;
use crate::macroblock::{H263Macroblock, MbType};
use crate::motion;
use crate::motion::MotionVector;
use crate::picture::b_part;
use crate::picture::b_part::PbTimes;
use crate::picture::blocks;
use crate::picture::frame;
use crate::picture::grid;
use crate::picture::macroblocks;
use crate::picture::macroblocks::{Before, MbModes, MbPlace};
use crate::picture::predictions;
use crate::residual;
use crate::scal_upsample;
use vstd::prelude::*;

verus! {

/// The sample at column `i` and row `j` of block `n` of a macroblock: four luma
/// blocks, two above and two below, then Cb, then Cr.
pub open spec fn sample(p: frame::Planes, col: int, row: int, n: int, i: int, j: int) -> u8 {
    if n == 0 {
        p.y[(16 * row + j) * p.width + (16 * col + i)]
    } else if n == 1 {
        p.y[(16 * row + j) * p.width + (16 * col + 8 + i)]
    } else if n == 2 {
        p.y[(16 * row + 8 + j) * p.width + (16 * col + i)]
    } else if n == 3 {
        p.y[(16 * row + 8 + j) * p.width + (16 * col + 8 + i)]
    } else if n == 4 {
        p.cb[(8 * row + j) * (p.width / 2) + (8 * col + i)]
    } else {
        p.cr[(8 * row + j) * (p.width / 2) + (8 * col + i)]
    }
}

/// What a vector finds in the reference for that sample; `c` is the vector for
/// the chroma planes.
pub open spec fn found(
    r: frame::Planes,
    col: int,
    row: int,
    n: int,
    i: int,
    j: int,
    mv: MotionVector,
    c: MotionVector,
) -> int {
    let x = 32 * col + 2 * i;
    let y = 32 * row + 2 * j;
    let cx = 16 * col + 2 * i + c.dx;
    let cy = 16 * row + 2 * j + c.dy;
    if n == 0 {
        motion::at_half(r.y, r.width, r.height, x + mv.dx, y + mv.dy, 0)
    } else if n == 1 {
        motion::at_half(r.y, r.width, r.height, x + 16 + mv.dx, y + mv.dy, 0)
    } else if n == 2 {
        motion::at_half(r.y, r.width, r.height, x + mv.dx, y + 16 + mv.dy, 0)
    } else if n == 3 {
        motion::at_half(r.y, r.width, r.height, x + 16 + mv.dx, y + 16 + mv.dy, 0)
    } else if n == 4 {
        motion::at_half(r.cb, r.width / 2, r.height / 2, cx, cy, 0)
    } else {
        motion::at_half(r.cr, r.width / 2, r.height / 2, cx, cy, 0)
    }
}

/// What a vector finds for block `n`.
pub open spec fn found_block(
    r: frame::Planes,
    col: int,
    row: int,
    n: int,
    mv: MotionVector,
    c: MotionVector,
) -> Seq<u8> {
    Seq::new(64, |k: int| found(r, col, row, n, k % 8, k / 8, mv, c) as u8)
}

/// Block `n` of a predicted macroblock carries coefficients: a luma block where
/// its bit of CBPY is 0, Cb where CBPC is 2 or 3, Cr where CBPC is 1 or 3.
pub open spec fn carries(cbpy: int, cbpc: int, n: int) -> bool {
    if n == 0 {
        cbpy < 8
    } else if n == 1 {
        cbpy % 8 < 4
    } else if n == 2 {
        cbpy % 4 < 2
    } else if n == 3 {
        cbpy % 2 == 0
    } else if n == 4 {
        cbpc == 2 || cbpc == 3
    } else {
        cbpc == 1 || cbpc == 3
    }
}

/// Block `n` of an INTRA macroblock has coefficients behind its first: a luma
/// block where its bit of CBPY is 1, Cb where CBPC is 2 or 3, Cr where CBPC is 1
/// or 3.
pub open spec fn carries_more(cbpy: int, cbpc: int, n: int) -> bool {
    if n < 4 {
        !carries(cbpy, cbpc, n)
    } else {
        carries(cbpy, cbpc, n)
    }
}

/// A plane with a block put into it has the block's samples at its place.
pub(crate) proof fn lemma_put(plane: Seq<u8>, stride: int, x0: int, y0: int, block: Seq<u8>, i: int, j: int)
    requires
        0 <= x0,
        x0 + 8 <= stride,
        0 <= y0,
        (y0 + 8) * stride <= plane.len(),
        0 <= i < 8,
        0 <= j < 8,
    ensures
        frame::blitted(plane, stride, x0, y0, block)[(y0 + j) * stride + (x0 + i)] == block[8 * j
            + i],
        0 <= (y0 + j) * stride + (x0 + i) < plane.len(),
{
    scal_upsample::lemma_position(y0 + j, x0 + i, stride, y0 + 8);
    assert(stride * (y0 + 8) == (y0 + 8) * stride) by (nonlinear_arith);
}

/// A sample that lies outside a block that is put into a plane stays.
proof fn lemma_kept(
    plane: Seq<u8>,
    stride: int,
    x0: int,
    y0: int,
    block: Seq<u8>,
    x: int,
    y: int,
)
    requires
        0 <= x < stride,
        0 <= y,
        0 <= y * stride + x < plane.len(),
        !(x0 <= x < x0 + 8 && y0 <= y < y0 + 8),
    ensures
        frame::blitted(plane, stride, x0, y0, block)[y * stride + x] == plane[y * stride + x],
{
    scal_upsample::lemma_position(y, x, stride, y + 1);
}

/// The four blocks of a macroblock put into a luma plane one after the other.
spec fn four_put(
    plane: Seq<u8>,
    stride: int,
    x: int,
    y: int,
    b: Seq<Seq<u8>>,
) -> Seq<u8> {
    frame::blitted(
        frame::blitted(
            frame::blitted(
                frame::blitted(plane, stride, x, y, b[0]),
                stride,
                x + 8,
                y,
                b[1],
            ),
            stride,
            x,
            y + 8,
            b[2],
        ),
        stride,
        x + 8,
        y + 8,
        b[3],
    )
}

/// Each of the four blocks is where it was put.
proof fn lemma_four_put(
    plane: Seq<u8>,
    stride: int,
    x: int,
    y: int,
    b: Seq<Seq<u8>>,
    i: int,
    j: int,
)
    requires
        0 <= x,
        x + 16 <= stride,
        0 <= y,
        (y + 16) * stride <= plane.len(),
        0 <= i < 8,
        0 <= j < 8,
    ensures
        ({
            let q = four_put(plane, stride, x, y, b);
            &&& q[(y + j) * stride + (x + i)] == b[0][8 * j + i]
            &&& q[(y + j) * stride + (x + 8 + i)] == b[1][8 * j + i]
            &&& q[(y + 8 + j) * stride + (x + i)] == b[2][8 * j + i]
            &&& q[(y + 8 + j) * stride + (x + 8 + i)] == b[3][8 * j + i]
            &&& q.len() == plane.len()
        }),
{
    assert((y + 8) * stride <= (y + 16) * stride) by (nonlinear_arith)
        requires
            0 <= stride,
    ;
    assert((y + 8 + 8) * stride == (y + 16) * stride);
    let p1 = frame::blitted(plane, stride, x, y, b[0]);
    let p2 = frame::blitted(p1, stride, x + 8, y, b[1]);
    let p3 = frame::blitted(p2, stride, x, y + 8, b[2]);
    lemma_put(plane, stride, x, y, b[0], i, j);
    lemma_kept(p1, stride, x + 8, y, b[1], x + i, y + j);
    lemma_kept(p2, stride, x, y + 8, b[2], x + i, y + j);
    lemma_kept(p3, stride, x + 8, y + 8, b[3], x + i, y + j);
    lemma_put(p1, stride, x + 8, y, b[1], i, j);
    lemma_kept(p2, stride, x, y + 8, b[2], x + 8 + i, y + j);
    lemma_kept(p3, stride, x + 8, y + 8, b[3], x + 8 + i, y + j);
    lemma_put(p2, stride, x, y + 8, b[2], i, j);
    lemma_kept(p3, stride, x + 8, y + 8, b[3], x + i, y + 8 + j);
    lemma_put(p3, stride, x + 8, y + 8, b[3], i, j);
}

/// Block `n` of a predicted macroblock stands between the bits `from` and `to`:
/// where it carries coefficients they are there and are added to the prediction;
/// where it does not, nothing is read and the prediction stays.
pub open spec fn predicted_between(
    s: Seq<bool>,
    from: int,
    to: int,
    coded: bool,
    quant: int,
    prediction: Seq<u8>,
    i: int,
    j: int,
    value: u8,
) -> bool {
    if coded {
        &&& block_layer::block_at(s, from, false, true) is Ok
        &&& block_layer::block_at(s, from, false, true)->Ok_0.1 == to
        &&& value == residual::inter_samples(
            block_layer::block_at(s, from, false, true)->Ok_0.0.levels,
            quant,
            prediction,
        )[8 * j + i]
    } else {
        to == from && value == prediction[8 * j + i]
    }
}

/// Block `n` of an INTRA macroblock stands between the bits `from` and `to`.
pub open spec fn intra_between(
    s: Seq<bool>,
    from: int,
    to: int,
    more: bool,
    quant: int,
    i: int,
    j: int,
    value: u8,
) -> bool {
    &&& block_layer::block_at(s, from, true, more) is Ok
    &&& block_layer::block_at(s, from, true, more)->Ok_0.1 == to
    &&& value == residual::intra_samples(
        block_layer::block_at(s, from, true, more)->Ok_0.0.levels,
        quant,
    )[8 * j + i]
}

/// What a predicted block becomes.
spec fn made(
    s: Seq<bool>,
    from: int,
    coded: bool,
    quant: int,
    prediction: Seq<u8>,
) -> (Seq<u8>, int) {
    if coded {
        let b = block_layer::block_at(s, from, false, true)->Ok_0;
        (residual::inter_samples(b.0.levels, quant, prediction), b.1)
    } else {
        (prediction, from)
    }
}

/// The six blocks of a predicted macroblock, one behind the other.
#[verifier::spinoff_prover]
proof fn lemma_predicted(
    s: Seq<bool>,
    at: int,
    p: frame::Planes,
    cols: int,
    rows: int,
    col: int,
    row: int,
    pred: Seq<Seq<u8>>,
    coded: Seq<bool>,
    quant: int,
) -> (bits: Seq<int>)
    requires
        blocks::has_macroblocks(p, cols, rows),
        0 <= col < cols,
        0 <= row < rows,
        pred.len() == 6,
        coded.len() == 6,
        blocks::predicted_macroblock_at(s, at, p, col, row, pred, coded, quant) is Ok,
    ensures
        ({
            let (q, end) = blocks::predicted_macroblock_at(
                s,
                at,
                p,
                col,
                row,
                pred,
                coded,
                quant,
            )->Ok_0;
            &&& bits.len() == 7
            &&& bits[0] == at
            &&& bits[6] == end
            &&& forall|n: int, i: int, j: int|
                0 <= n < 6 && 0 <= i < 8 && 0 <= j < 8 ==> predicted_between(
                    s,
                    bits[n],
                    bits[n + 1],
                    coded[n],
                    quant,
                    pred[n],
                    i,
                    j,
                    #[trigger] sample(q, col, row, n, i, j),
                )
        }),
{
    reveal(blocks::then_predicted_block);
    let (q, end) = blocks::predicted_macroblock_at(s, at, p, col, row, pred, coded, quant)->Ok_0;
    let (b0, p1) = made(s, at, coded[0], quant, pred[0]);
    let (b1, p2) = made(s, p1, coded[1], quant, pred[1]);
    let (b2, p3) = made(s, p2, coded[2], quant, pred[2]);
    let (b3, p4) = made(s, p3, coded[3], quant, pred[3]);
    let (b4, p5) = made(s, p4, coded[4], quant, pred[4]);
    let (b5, p6) = made(s, p5, coded[5], quant, pred[5]);
    let bits = seq![at, p1, p2, p3, p4, p5, p6];
    let x = 16 * col;
    let y = 16 * row;
    let luma = seq![b0, b1, b2, b3];
    assert(blocks::luma_x(col, 0) == x && blocks::luma_x(col, 1) == x + 8 && blocks::luma_x(col, 2)
        == x && blocks::luma_x(col, 3) == x + 8);
    assert(blocks::luma_y(row, 0) == y && blocks::luma_y(row, 1) == y && blocks::luma_y(row, 2) == y
        + 8 && blocks::luma_y(row, 3) == y + 8);
    assert(q.y == four_put(p.y, p.width, x, y, luma));
    assert(q.cb == frame::blitted(p.cb, p.width / 2, 8 * col, 8 * row, b4));
    assert(q.cr == frame::blitted(p.cr, p.width / 2, 8 * col, 8 * row, b5));
    assert(q.width == p.width);
    blocks::lemma_luma_place(cols, rows, col, row, 3);
    blocks::lemma_chroma_place(cols, rows, col, row);
    assert forall|n: int, i: int, j: int|
        0 <= n < 6 && 0 <= i < 8 && 0 <= j < 8 implies predicted_between(
        s,
        bits[n],
        bits[n + 1],
        coded[n],
        quant,
        pred[n],
        i,
        j,
        #[trigger] sample(q, col, row, n, i, j),
    ) by {
        lemma_four_put(p.y, p.width, x, y, luma, i, j);
        lemma_put(p.cb, p.width / 2, 8 * col, 8 * row, b4, i, j);
        lemma_put(p.cr, p.width / 2, 8 * col, 8 * row, b5, i, j);
        assert(n == 0 || n == 1 || n == 2 || n == 3 || n == 4 || n == 5);
    }
    bits
}

/// What an INTRA block becomes.
spec fn shown(s: Seq<bool>, from: int, more: bool, quant: int) -> (Seq<u8>, int) {
    let b = block_layer::block_at(s, from, true, more)->Ok_0;
    (residual::intra_samples(b.0.levels, quant), b.1)
}

/// The six blocks of an INTRA macroblock, one behind the other.
#[verifier::spinoff_prover]
proof fn lemma_intra(
    s: Seq<bool>,
    at: int,
    p: frame::Planes,
    cols: int,
    rows: int,
    col: int,
    row: int,
    coded: Seq<bool>,
    quant: int,
) -> (bits: Seq<int>)
    requires
        blocks::has_macroblocks(p, cols, rows),
        0 <= col < cols,
        0 <= row < rows,
        coded.len() == 6,
        blocks::intra_macroblock_at(s, at, p, col, row, coded, quant) is Ok,
    ensures
        ({
            let (q, end) = blocks::intra_macroblock_at(s, at, p, col, row, coded, quant)->Ok_0;
            &&& bits.len() == 7
            &&& bits[0] == at
            &&& bits[6] == end
            &&& forall|n: int, i: int, j: int|
                0 <= n < 6 && 0 <= i < 8 && 0 <= j < 8 ==> intra_between(
                    s,
                    bits[n],
                    bits[n + 1],
                    coded[n],
                    quant,
                    i,
                    j,
                    #[trigger] sample(q, col, row, n, i, j),
                )
        }),
{
    reveal(blocks::then_intra_block);
    let (q, end) = blocks::intra_macroblock_at(s, at, p, col, row, coded, quant)->Ok_0;
    let (b0, p1) = shown(s, at, coded[0], quant);
    let (b1, p2) = shown(s, p1, coded[1], quant);
    let (b2, p3) = shown(s, p2, coded[2], quant);
    let (b3, p4) = shown(s, p3, coded[3], quant);
    let (b4, p5) = shown(s, p4, coded[4], quant);
    let (b5, p6) = shown(s, p5, coded[5], quant);
    let bits = seq![at, p1, p2, p3, p4, p5, p6];
    let x = 16 * col;
    let y = 16 * row;
    let luma = seq![b0, b1, b2, b3];
    assert(blocks::luma_x(col, 0) == x && blocks::luma_x(col, 1) == x + 8 && blocks::luma_x(col, 2)
        == x && blocks::luma_x(col, 3) == x + 8);
    assert(blocks::luma_y(row, 0) == y && blocks::luma_y(row, 1) == y && blocks::luma_y(row, 2) == y
        + 8 && blocks::luma_y(row, 3) == y + 8);
    assert(q.y == four_put(p.y, p.width, x, y, luma));
    assert(q.cb == frame::blitted(p.cb, p.width / 2, 8 * col, 8 * row, b4));
    assert(q.cr == frame::blitted(p.cr, p.width / 2, 8 * col, 8 * row, b5));
    assert(q.width == p.width);
    blocks::lemma_luma_place(cols, rows, col, row, 3);
    blocks::lemma_chroma_place(cols, rows, col, row);
    assert forall|n: int, i: int, j: int|
        0 <= n < 6 && 0 <= i < 8 && 0 <= j < 8 implies intra_between(
        s,
        bits[n],
        bits[n + 1],
        coded[n],
        quant,
        i,
        j,
        #[trigger] sample(q, col, row, n, i, j),
    ) by {
        lemma_four_put(p.y, p.width, x, y, luma, i, j);
        lemma_put(p.cb, p.width / 2, 8 * col, 8 * row, b4, i, j);
        lemma_put(p.cr, p.width / 2, 8 * col, 8 * row, b5, i, j);
        assert(n == 0 || n == 1 || n == 2 || n == 3 || n == 4 || n == 5);
    }
    bits
}

/// What is sent of a pattern.
pub open spec fn sent(p: Option<u8>) -> int {
    match p {
        Some(v) => v as int,
        None => 0,
    }
}

/// The patterns of a predicted macroblock in numbers.
proof fn lemma_carries(cbpy: int, cbpc: int, n: int)
    requires
        0 <= cbpy < 16,
        0 <= cbpc < 4,
        0 <= n < 6,
    ensures
        blocks::inter_pattern(cbpy, cbpc)[n] == carries(cbpy, cbpc, n),
        blocks::intra_pattern(cbpy, cbpc)[n] == carries_more(cbpy, cbpc, n),
        blocks::inter_pattern(cbpy, cbpc).len() == 6,
        blocks::intra_pattern(cbpy, cbpc).len() == 6,
{
    assert(n == 0 || n == 1 || n == 2 || n == 3 || n == 4 || n == 5);
    assert(cbpc == 0 || cbpc == 1 || cbpc == 2 || cbpc == 3);
}

/// In a macroblock with one vector the six blocks come in order, luma row by row,
/// Cb, Cr. A luma block carries coefficients where its bit of CBPY is 0, Cb where
/// CBPC is 2 or 3, Cr where CBPC is 1 or 3. What they make is added to what the
/// macroblock's vector finds in the reference; the samples of a block without
/// any are those.
#[verifier::spinoff_prover]
#[verifier::rlimit(50)]
pub proof fn coded_blocks_add_to_their_own_plane(
    s: Seq<bool>,
    at: int,
    mb: H263Macroblock,
    r: frame::Planes,
    b: Before,
    place: MbPlace,
    modes: MbModes,
    rows: int,
) -> (bits: Seq<int>)
    requires
        mb.coded,
        mb.mb_type == Some(MbType::Inter) || mb.mb_type == Some(MbType::InterQ),
        0 <= sent(mb.cbpy) < 16,
        0 <= sent(mb.cbpc) < 4,
        blocks::has_macroblocks(b.planes, b.cols, rows),
        place.col < b.cols,
        place.row < rows,
        macroblocks::macroblock_step(s, at, mb, Some(r), b, place, modes) is Ok,
    ensures
        ({
            let (d, end) = macroblocks::macroblock_step(
                s,
                at,
                mb,
                Some(r),
                b,
                place,
                modes,
            )->Ok_0;
            let col = place.col as int;
            let row = place.row as int;
            &&& bits.len() == 7 && bits[0] == at && bits[6] == end
            &&& forall|n: int, i: int, j: int|
                0 <= n < 6 && 0 <= i < 8 && 0 <= j < 8 ==> predicted_between(
                    s,
                    bits[n],
                    bits[n + 1],
                    carries(sent(mb.cbpy), sent(mb.cbpc), n),
                    mb.quantiser_after as int,
                    found_block(r, col, row, n, d.mv, motion::chroma_vector(d.mv)),
                    i,
                    j,
                    #[trigger] sample(d.planes, col, row, n, i, j),
                )
        }),
{
    reveal(macroblocks::macroblock_step);
    let (d, end) = macroblocks::macroblock_step(s, at, mb, Some(r), b, place, modes)->Ok_0;
    let col = place.col as int;
    let row = place.row as int;
    let mv = macroblocks::sent_vector(b, mb.mvd->Some_0, place, modes);
    let pred = predictions::by_one_vector(r, col, row, mv);
    let cbpy = sent(mb.cbpy);
    let cbpc = sent(mb.cbpc);
    let coded = blocks::inter_pattern(cbpy, cbpc);
    assert(macroblocks::four_times(mv)[0] == mv);
    assert(d.mv == mv);
    let bits = lemma_predicted(
        s,
        at,
        b.planes,
        b.cols,
        rows,
        col,
        row,
        pred,
        coded,
        mb.quantiser_after as int,
    );
    assert forall|n: int, i: int, j: int|
        0 <= n < 6 && 0 <= i < 8 && 0 <= j < 8 implies predicted_between(
        s,
        bits[n],
        bits[n + 1],
        carries(sent(mb.cbpy), sent(mb.cbpc), n),
        mb.quantiser_after as int,
        found_block(r, col, row, n, d.mv, motion::chroma_vector(d.mv)),
        i,
        j,
        #[trigger] sample(d.planes, col, row, n, i, j),
    ) by {
        lemma_carries(cbpy, cbpc, n);
        lemma_found(r, col, row, n, mv);
    }
    bits
}

/// The prediction of a block, sample by sample.
proof fn lemma_predicted_sample(
    p: Seq<u8>,
    width: int,
    height: int,
    x: int,
    y: int,
    mv: MotionVector,
    k: int,
)
    requires
        0 <= k < 64,
    ensures
        motion::predicted_block(p, width, height, x, y, mv, 0)[k] == motion::at_half(
            p,
            width,
            height,
            2 * x + 2 * (k % 8) + mv.dx,
            2 * y + 2 * (k / 8) + mv.dy,
            0,
        ) as u8,
{
    assert(2 * (x + k % 8) + mv.dx == 2 * x + 2 * (k % 8) + mv.dx);
    assert(2 * (y + k / 8) + mv.dy == 2 * y + 2 * (k / 8) + mv.dy);
}

/// The predictions by one vector.
#[verifier::spinoff_prover]
#[verifier::rlimit(50)]
proof fn lemma_found(r: frame::Planes, col: int, row: int, n: int, mv: MotionVector)
    requires
        0 <= n < 6,
    ensures
        predictions::by_one_vector(r, col, row, mv)[n] == found_block(
            r,
            col,
            row,
            n,
            mv,
            motion::chroma_vector(mv),
        ),
{
    let c = motion::chroma_vector(mv);
    let one = predictions::by_one_vector(r, col, row, mv)[n];
    let want = found_block(r, col, row, n, mv, c);
    let x = 16 * col + 8 * (n % 2);
    let y = 16 * row + 8 * (n / 2);
    assert(n == 0 || n == 1 || n == 2 || n == 3 || n == 4 || n == 5);
    assert forall|k: int| 0 <= k < 64 implies #[trigger] one[k] == want[k] by {
        if n < 4 {
            lemma_predicted_sample(r.y, r.width, r.height, x, y, mv, k);
        } else if n == 4 {
            lemma_predicted_sample(r.cb, r.width / 2, r.height / 2, 8 * col, 8 * row, c, k);
        } else {
            lemma_predicted_sample(r.cr, r.width / 2, r.height / 2, 8 * col, 8 * row, c, k);
        }
    }
    assert(one =~= want);
}

/// In an INTRA macroblock the six blocks come in order, luma row by row, Cb, Cr,
/// each with its first coefficient. A luma block has more where its bit of CBPY
/// is 1, Cb where CBPC is 2 or 3, Cr where CBPC is 1 or 3.
pub proof fn intra_blocks_show_in_their_own_plane(
    s: Seq<bool>,
    at: int,
    mb: H263Macroblock,
    reference: Option<frame::Planes>,
    b: Before,
    place: MbPlace,
    modes: MbModes,
    rows: int,
) -> (bits: Seq<int>)
    requires
        mb.coded,
        mb.mb_type == Some(MbType::Intra) || mb.mb_type == Some(MbType::IntraQ),
        !modes.aic,
        0 <= sent(mb.cbpy) < 16,
        0 <= sent(mb.cbpc) < 4,
        blocks::has_macroblocks(b.planes, b.cols, rows),
        place.col < b.cols,
        place.row < rows,
        macroblocks::macroblock_step(s, at, mb, reference, b, place, modes) is Ok,
    ensures
        ({
            let (d, end) = macroblocks::macroblock_step(
                s,
                at,
                mb,
                reference,
                b,
                place,
                modes,
            )->Ok_0;
            let col = place.col as int;
            let row = place.row as int;
            &&& bits.len() == 7 && bits[0] == at && bits[6] == end
            &&& forall|n: int, i: int, j: int|
                0 <= n < 6 && 0 <= i < 8 && 0 <= j < 8 ==> intra_between(
                    s,
                    bits[n],
                    bits[n + 1],
                    carries_more(sent(mb.cbpy), sent(mb.cbpc), n),
                    mb.quantiser_after as int,
                    i,
                    j,
                    #[trigger] sample(d.planes, col, row, n, i, j),
                )
        }),
{
    reveal(macroblocks::macroblock_step);
    let (d, end) = macroblocks::macroblock_step(s, at, mb, reference, b, place, modes)->Ok_0;
    let col = place.col as int;
    let row = place.row as int;
    let cbpy = sent(mb.cbpy);
    let cbpc = sent(mb.cbpc);
    let coded = blocks::intra_pattern(cbpy, cbpc);
    let bits = lemma_intra(
        s,
        at,
        b.planes,
        b.cols,
        rows,
        col,
        row,
        coded,
        mb.quantiser_after as int,
    );
    assert forall|n: int, i: int, j: int|
        0 <= n < 6 && 0 <= i < 8 && 0 <= j < 8 implies intra_between(
        s,
        bits[n],
        bits[n + 1],
        carries_more(sent(mb.cbpy), sent(mb.cbpc), n),
        mb.quantiser_after as int,
        i,
        j,
        #[trigger] sample(d.planes, col, row, n, i, j),
    ) by {
        lemma_carries(cbpy, cbpc, n);
    }
    bits
}

/// With one chroma block coded, the other chroma block is what the vector finds:
/// CBPC 2 leaves Cr, CBPC 1 leaves Cb, and CBPC 0 leaves both.
#[verifier::spinoff_prover]
#[verifier::rlimit(60)]
pub proof fn uncoded_chroma_is_its_prediction(
    s: Seq<bool>,
    at: int,
    mb: H263Macroblock,
    r: frame::Planes,
    b: Before,
    place: MbPlace,
    modes: MbModes,
    rows: int,
    i: int,
    j: int,
)
    requires
        mb.coded,
        mb.mb_type == Some(MbType::Inter) || mb.mb_type == Some(MbType::InterQ),
        0 <= sent(mb.cbpy) < 16,
        0 <= sent(mb.cbpc) < 4,
        blocks::has_macroblocks(b.planes, b.cols, rows),
        place.col < b.cols,
        place.row < rows,
        0 <= i < 8,
        0 <= j < 8,
        macroblocks::macroblock_step(s, at, mb, Some(r), b, place, modes) is Ok,
    ensures
        ({
            let d = macroblocks::macroblock_step(s, at, mb, Some(r), b, place, modes)->Ok_0.0;
            let c = motion::chroma_vector(d.mv);
            let x = 8 * place.col + i;
            let y = 8 * place.row + j;
            let w = r.width / 2;
            let h = r.height / 2;
            let k = y * (d.planes.width / 2) + x;
            &&& sent(mb.cbpc) == 0 || sent(mb.cbpc) == 2 ==> d.planes.cr[k] == motion::at_half(
                r.cr,
                w,
                h,
                2 * x + c.dx,
                2 * y + c.dy,
                0,
            ) as u8
            &&& sent(mb.cbpc) == 0 || sent(mb.cbpc) == 1 ==> d.planes.cb[k] == motion::at_half(
                r.cb,
                w,
                h,
                2 * x + c.dx,
                2 * y + c.dy,
                0,
            ) as u8
        }),
{
    let bits = coded_blocks_add_to_their_own_plane(s, at, mb, r, b, place, modes, rows);
    let d = macroblocks::macroblock_step(s, at, mb, Some(r), b, place, modes)->Ok_0.0;
    let col = place.col as int;
    let row = place.row as int;
    let c = motion::chroma_vector(d.mv);
    let cb = sample(d.planes, col, row, 4, i, j);
    let cr = sample(d.planes, col, row, 5, i, j);
    assert((8 * j + i) % 8 == i && (8 * j + i) / 8 == j);
    assert(16 * col + 2 * i + c.dx == 2 * (8 * col + i) + c.dx);
    assert(16 * row + 2 * j + c.dy == 2 * (8 * row + j) + c.dy);
    assert(found_block(r, col, row, 4, d.mv, c)[8 * j + i] == found(
        r,
        col,
        row,
        4,
        i,
        j,
        d.mv,
        c,
    ) as u8);
    assert(found_block(r, col, row, 5, d.mv, c)[8 * j + i] == found(
        r,
        col,
        row,
        5,
        i,
        j,
        d.mv,
        c,
    ) as u8);
    assert(predicted_between(
        s,
        bits[4],
        bits[5],
        carries(sent(mb.cbpy), sent(mb.cbpc), 4),
        mb.quantiser_after as int,
        found_block(r, col, row, 4, d.mv, motion::chroma_vector(d.mv)),
        i,
        j,
        cb,
    ));
    assert(predicted_between(
        s,
        bits[5],
        bits[6],
        carries(sent(mb.cbpy), sent(mb.cbpc), 5),
        mb.quantiser_after as int,
        found_block(r, col, row, 5, d.mv, motion::chroma_vector(d.mv)),
        i,
        j,
        cr,
    ));
}

/// A macroblock with one vector has the vector that its difference leads to from
/// the predictor, and gives it to each of its luma blocks.
pub proof fn sent_vectors_start_from_their_predictor(
    s: Seq<bool>,
    at: int,
    mb: H263Macroblock,
    r: frame::Planes,
    b: Before,
    place: MbPlace,
    modes: MbModes,
    i: int,
)
    requires
        mb.coded,
        mb.mb_type == Some(MbType::Inter) || mb.mb_type == Some(MbType::InterQ),
        macroblocks::macroblock_step(s, at, mb, Some(r), b, place, modes) is Ok,
        0 <= i < 4,
    ensures
        ({
            let d = macroblocks::macroblock_step(s, at, mb, Some(r), b, place, modes)->Ok_0.0;
            let p = grid::predictor(
                b.grid,
                b.cols,
                place.col as int,
                place.row as int,
                place.gob_top_row as int,
                place.gob_header_present,
                modes.pb,
                place.segment,
            );
            &&& mb.mvd is Some
            &&& d.mv == motion::reconstructed(modes.umv, p, mb.mvd->Some_0)
            &&& d.mvs4.len() == 4
            &&& d.mvs4[i] == d.mv
        }),
{
    reveal(macroblocks::macroblock_step);
}

/// In a macroblock with four vectors the blocks come in order and carry
/// coefficients as in one with a single vector. Each luma block is predicted with
/// the vectors around it, at its own place; the chroma blocks with the vector that
/// the four luma vectors make.
#[verifier::spinoff_prover]
#[verifier::rlimit(50)]
pub proof fn blocks_with_four_vectors_add_to_their_own_plane(
    s: Seq<bool>,
    at: int,
    mb: H263Macroblock,
    r: frame::Planes,
    b: Before,
    place: MbPlace,
    modes: MbModes,
    rows: int,
) -> (bits: Seq<int>)
    requires
        mb.coded,
        mb.mb_type == Some(MbType::Inter4V) || mb.mb_type == Some(MbType::Inter4VQ),
        0 <= sent(mb.cbpy) < 16,
        0 <= sent(mb.cbpc) < 4,
        blocks::has_macroblocks(b.planes, b.cols, rows),
        place.col < b.cols,
        place.row < rows,
        macroblocks::macroblock_step(s, at, mb, Some(r), b, place, modes) is Ok,
    ensures
        ({
            let (d, end) = macroblocks::macroblock_step(
                s,
                at,
                mb,
                Some(r),
                b,
                place,
                modes,
            )->Ok_0;
            let col = place.col as int;
            let row = place.row as int;
            &&& modes.advanced_prediction
            &&& bits.len() == 7 && bits[0] == at && bits[6] == end
            &&& forall|n: int, i: int, j: int|
                0 <= n < 6 && 0 <= i < 8 && 0 <= j < 8 ==> predicted_between(
                    s,
                    bits[n],
                    bits[n + 1],
                    carries(sent(mb.cbpy), sent(mb.cbpc), n),
                    mb.quantiser_after as int,
                    overlapped_block(r, b, col, row, n, d.mvs4),
                    i,
                    j,
                    #[trigger] sample(d.planes, col, row, n, i, j),
                )
        }),
{
    reveal(macroblocks::macroblock_step);
    let (d, end) = macroblocks::macroblock_step(s, at, mb, Some(r), b, place, modes)->Ok_0;
    let col = place.col as int;
    let row = place.row as int;
    let mvs = d.mvs4;
    let pred = predictions::by_four_vectors(r, b.grid, b.cols, col, row, mvs);
    let cbpy = sent(mb.cbpy);
    let cbpc = sent(mb.cbpc);
    let coded = blocks::inter_pattern(cbpy, cbpc);
    let bits = lemma_predicted(
        s,
        at,
        b.planes,
        b.cols,
        rows,
        col,
        row,
        pred,
        coded,
        mb.quantiser_after as int,
    );
    assert forall|n: int, i: int, j: int|
        0 <= n < 6 && 0 <= i < 8 && 0 <= j < 8 implies predicted_between(
        s,
        bits[n],
        bits[n + 1],
        carries(sent(mb.cbpy), sent(mb.cbpc), n),
        mb.quantiser_after as int,
        overlapped_block(r, b, col, row, n, d.mvs4),
        i,
        j,
        #[trigger] sample(d.planes, col, row, n, i, j),
    ) by {
        lemma_carries(cbpy, cbpc, n);
        lemma_overlapped(r, b, col, row, n, mvs);
    }
    bits
}

/// What overlapped prediction finds for block `n`, or, for chroma, what the vector
/// of the four luma vectors finds.
pub open spec fn overlapped_block(
    r: frame::Planes,
    b: Before,
    col: int,
    row: int,
    n: int,
    mvs: Seq<MotionVector>,
) -> Seq<u8> {
    if n < 4 {
        let (above, below, left, right) = grid::remotes(
            vectors::block_at(n % 2, n / 2),
            mvs,
            predictions::neighbour(b.grid, b.cols, col, row - 1),
            predictions::neighbour(b.grid, b.cols, col - 1, row),
            predictions::neighbour(b.grid, b.cols, col + 1, row),
            row == 0,
            col == 0,
            col + 1 >= b.cols,
        );
        motion::overlapped_block(
            r.y,
            r.width,
            r.height,
            16 * col + 8 * (n % 2),
            16 * row + 8 * (n / 2),
            mvs[n],
            above,
            below,
            left,
            right,
            0,
        )
    } else {
        found_block(r, col, row, n, mvs[0], motion::chroma_vector_of_four(mvs))
    }
}

/// The predictions by four vectors.
#[verifier::spinoff_prover]
#[verifier::rlimit(50)]
proof fn lemma_overlapped(
    r: frame::Planes,
    b: Before,
    col: int,
    row: int,
    n: int,
    mvs: Seq<MotionVector>,
)
    requires
        0 <= n < 6,
    ensures
        predictions::by_four_vectors(r, b.grid, b.cols, col, row, mvs)[n] == overlapped_block(
            r,
            b,
            col,
            row,
            n,
            mvs,
        ),
{
    let four = predictions::by_four_vectors(r, b.grid, b.cols, col, row, mvs)[n];
    assert(n == 0 || n == 1 || n == 2 || n == 3 || n == 4 || n == 5);
    if n >= 4 {
        lemma_chroma_of_four(r, col, row, n, mvs, four);
    }
}

/// The chroma predictions by four vectors.
#[verifier::spinoff_prover]
#[verifier::rlimit(50)]
proof fn lemma_chroma_of_four(
    r: frame::Planes,
    col: int,
    row: int,
    n: int,
    mvs: Seq<MotionVector>,
    block: Seq<u8>,
)
    requires
        n == 4 || n == 5,
        block == motion::predicted_block(
            if n == 4 {
                r.cb
            } else {
                r.cr
            },
            r.width / 2,
            r.height / 2,
            8 * col,
            8 * row,
            motion::chroma_vector_of_four(mvs),
            0,
        ),
    ensures
        block == found_block(r, col, row, n, mvs[0], motion::chroma_vector_of_four(mvs)),
{
    let c = motion::chroma_vector_of_four(mvs);
    let want = found_block(r, col, row, n, mvs[0], c);
    let plane = if n == 4 {
        r.cb
    } else {
        r.cr
    };
    assert forall|k: int| 0 <= k < 64 implies #[trigger] block[k] == want[k] by {
        lemma_predicted_sample(plane, r.width / 2, r.height / 2, 8 * col, 8 * row, c, k);
    }
    assert(block =~= want);
}

/// Block `n` of a B-macroblock carries coefficients: the first block has the most
/// significant of the pattern's six bits, Cb and Cr the last two.
pub open spec fn b_carries(cbpb: int, n: int) -> bool {
    if n == 0 {
        cbpb >= 32
    } else if n == 1 {
        cbpb % 32 >= 16
    } else if n == 2 {
        cbpb % 16 >= 8
    } else if n == 3 {
        cbpb % 8 >= 4
    } else if n == 4 {
        cbpb % 4 >= 2
    } else {
        cbpb % 2 == 1
    }
}

/// The pattern of a B-macroblock in numbers.
proof fn lemma_b_carries(cbpb: int, n: int)
    requires
        0 <= cbpb < 64,
        0 <= n < 6,
    ensures
        blocks::b_pattern(cbpb)[n] == b_carries(cbpb, n),
        blocks::b_pattern(cbpb).len() == 6,
{
    assert(n == 0 || n == 1 || n == 2 || n == 3 || n == 4 || n == 5);
}

/// The blocks of a B-macroblock come in order behind those of the P-macroblock.
/// Those that the pattern names carry coefficients, which are added to the block's
/// own prediction with the coarser quantiser.
#[verifier::spinoff_prover]
#[verifier::rlimit(40)]
pub proof fn b_blocks_add_to_their_own_plane(
    s: Seq<bool>,
    at: int,
    mb: H263Macroblock,
    mvs4: Seq<MotionVector>,
    left: Option<MotionVector>,
    r: frame::Planes,
    p: frame::Planes,
    b: frame::Planes,
    cols: int,
    rows: int,
    col: int,
    row: int,
    pb: PbTimes,
) -> (bits: Seq<int>)
    requires
        0 <= sent(mb.cbpb) < 64,
        blocks::has_macroblocks(b, cols, rows),
        0 <= col < cols,
        0 <= row < rows,
        b_part::b_step(s, at, mb, mvs4, left, r, p, b, col, row, pb) is Ok,
    ensures
        ({
            let (q, end) = b_part::b_step(
                s,
                at,
                mb,
                mvs4,
                left,
                r,
                p,
                b,
                col,
                row,
                pb,
            )->Ok_0;
            let pred = b_part::b_predictions(
                b_part::b_source(mb, mvs4, left, pb),
                r,
                p,
                col,
                row,
            );
            &&& bits.len() == 7 && bits[0] == at && bits[6] == end
            &&& forall|n: int, i: int, j: int|
                0 <= n < 6 && 0 <= i < 8 && 0 <= j < 8 ==> predicted_between(
                    s,
                    bits[n],
                    bits[n + 1],
                    b_carries(sent(mb.cbpb), n),
                    b_picture::b_quantiser(pb.dbquant as int, mb.quantiser_after as int),
                    pred[n],
                    i,
                    j,
                    #[trigger] sample(q, col, row, n, i, j),
                )
        }),
{
    let (q, end) = b_part::b_step(s, at, mb, mvs4, left, r, p, b, col, row, pb)->Ok_0;
    let pred = b_part::b_predictions(b_part::b_source(mb, mvs4, left, pb), r, p, col, row);
    let cbpb = sent(mb.cbpb);
    let coded = blocks::b_pattern(cbpb);
    let quant = b_picture::b_quantiser(pb.dbquant as int, mb.quantiser_after as int);
    assert(pred.len() == 6 && coded.len() == 6);
    let bits = lemma_predicted(s, at, b, cols, rows, col, row, pred, coded, quant);
    assert forall|n: int, i: int, j: int|
        0 <= n < 6 && 0 <= i < 8 && 0 <= j < 8 implies predicted_between(
        s,
        bits[n],
        bits[n + 1],
        b_carries(sent(mb.cbpb), n),
        quant,
        pred[n],
        i,
        j,
        #[trigger] sample(q, col, row, n, i, j),
    ) by {
        lemma_b_carries(cbpb, n);
    }
    bits
}

/// A skipped macroblock has no vector, reads nothing further, and is what the reference
/// has at its place.
#[verifier::spinoff_prover]
#[verifier::rlimit(50)]
pub proof fn skipped_macroblocks_have_no_vector(
    s: Seq<bool>,
    at: int,
    mb: H263Macroblock,
    r: frame::Planes,
    b: Before,
    place: MbPlace,
    modes: MbModes,
    rows: int,
    n: int,
    i: int,
    j: int,
)
    requires
        !mb.coded,
        blocks::has_macroblocks(b.planes, b.cols, rows),
        blocks::has_macroblocks(r, b.cols, rows),
        place.col < b.cols,
        place.row < rows,
        0 <= n < 6,
        0 <= i < 8,
        0 <= j < 8,
        macroblocks::macroblock_step(s, at, mb, Some(r), b, place, modes) is Ok,
    ensures
        ({
            let (d, end) = macroblocks::macroblock_step(
                s,
                at,
                mb,
                Some(r),
                b,
                place,
                modes,
            )->Ok_0;
            let col = place.col as int;
            let row = place.row as int;
            let zero = MotionVector { dx: 0, dy: 0 };
            &&& end == at
            &&& d.mv == zero
            &&& d.mvs4.len() == 4
            &&& d.mvs4[0] == zero && d.mvs4[1] == zero && d.mvs4[2] == zero && d.mvs4[3] == zero
            &&& sample(d.planes, col, row, n, i, j) == found(
                r,
                col,
                row,
                n,
                i,
                j,
                zero,
                zero,
            ) as u8
        }),
{
    reveal(macroblocks::macroblock_step);
    let (d, end) = macroblocks::macroblock_step(s, at, mb, Some(r), b, place, modes)->Ok_0;
    let col = place.col as int;
    let row = place.row as int;
    let zero = MotionVector { dx: 0, dy: 0 };
    let pred = predictions::by_one_vector(r, col, row, zero);
    let coded = macroblocks::none_coded();
    let bits = lemma_predicted(
        s,
        at,
        b.planes,
        b.cols,
        rows,
        col,
        row,
        pred,
        coded,
        mb.quantiser_after as int,
    );
    lemma_uncoded(s, bits, coded, mb.quantiser_after as int, pred, d.planes, col, row);
    lemma_found(r, col, row, n, zero);
    assert((8 * j + i) % 8 == i && (8 * j + i) / 8 == j);
    let value = sample(d.planes, col, row, n, i, j);
    assert(predicted_between(
        s,
        bits[n],
        bits[n + 1],
        coded[n],
        mb.quantiser_after as int,
        pred[n],
        i,
        j,
        value,
    ));
}

/// Where no block carries coefficients, nothing is read.
proof fn lemma_uncoded(
    s: Seq<bool>,
    bits: Seq<int>,
    coded: Seq<bool>,
    quant: int,
    pred: Seq<Seq<u8>>,
    q: frame::Planes,
    col: int,
    row: int,
)
    requires
        bits.len() == 7,
        forall|n: int| 0 <= n < 6 ==> !#[trigger] coded[n],
        forall|n: int, i: int, j: int|
            0 <= n < 6 && 0 <= i < 8 && 0 <= j < 8 ==> predicted_between(
                s,
                bits[n],
                bits[n + 1],
                coded[n],
                quant,
                pred[n],
                i,
                j,
                #[trigger] sample(q, col, row, n, i, j),
            ),
    ensures
        bits[6] == bits[0],
{
    let a = sample(q, col, row, 0, 0, 0);
    let b = sample(q, col, row, 1, 0, 0);
    let c = sample(q, col, row, 2, 0, 0);
    let d = sample(q, col, row, 3, 0, 0);
    let e = sample(q, col, row, 4, 0, 0);
    let f = sample(q, col, row, 5, 0, 0);
    assert(predicted_between(s, bits[0], bits[1], coded[0], quant, pred[0], 0, 0, a));
    assert(predicted_between(s, bits[1], bits[2], coded[1], quant, pred[1], 0, 0, b));
    assert(predicted_between(s, bits[2], bits[3], coded[2], quant, pred[2], 0, 0, c));
    assert(predicted_between(s, bits[3], bits[4], coded[3], quant, pred[3], 0, 0, d));
    assert(predicted_between(s, bits[4], bits[5], coded[4], quant, pred[4], 0, 0, e));
    assert(predicted_between(s, bits[5], bits[6], coded[5], quant, pred[5], 0, 0, f));
}

/// An INTRA macroblock has no vector, but in a PB-frame it has one for the B-picture,
/// from its predictor like any other.
pub proof fn intra_macroblocks_have_vectors_for_b_pictures(
    s: Seq<bool>,
    at: int,
    mb: H263Macroblock,
    reference: Option<frame::Planes>,
    b: Before,
    place: MbPlace,
    modes: MbModes,
    i: int,
)
    requires
        mb.coded,
        mb.mb_type == Some(MbType::Intra) || mb.mb_type == Some(MbType::IntraQ),
        !modes.aic,
        macroblocks::macroblock_step(s, at, mb, reference, b, place, modes) is Ok,
        0 <= i < 4,
    ensures
        ({
            let d = macroblocks::macroblock_step(s, at, mb, reference, b, place, modes)->Ok_0.0;
            let p = grid::predictor(
                b.grid,
                b.cols,
                place.col as int,
                place.row as int,
                place.gob_top_row as int,
                place.gob_header_present,
                modes.pb,
                place.segment,
            );
            &&& d.mvs4.len() == 4
            &&& d.mvs4[i] == d.mv
            &&& !modes.pb ==> d.mv == (MotionVector { dx: 0, dy: 0 })
            &&& modes.pb ==> mb.mvd is Some && d.mv == motion::reconstructed(
                modes.umv,
                p,
                mb.mvd->Some_0,
            )
        }),
{
    reveal(macroblocks::macroblock_step);
}

} // verus!
