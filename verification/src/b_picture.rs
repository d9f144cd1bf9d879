//! Prediction of the B-picture of a PB-frame.
//!
//! A B-block is predicted forward from the previous picture and, where that
//! stays inside the macroblock, backward from the P-macroblock that has just
//! been reconstructed; where both are there, by their mean. The vectors are
//! scaled from the P-macroblock's by the distances in time. An improved
//! PB-frame can predict a macroblock in one direction alone.

use crate::macroblock::Mvd;
use crate::motion;
use crate::motion::{
    chroma_mv, chroma_mv_4mv, motion_compensate_block, Mb4Mv, MotionVector, RefPlane,
};
use crate::scal_upsample;
use crate::upsample;
use vstd::prelude::*;

verus! {

/// The quantiser of the B-blocks of a macroblock.
pub open spec fn b_quantiser(dbquant: int, quant: int) -> int {
    let q = (5 + dbquant) * quant / 4;
    if q < 1 {
        1
    } else if q > 31 {
        31
    } else {
        q
    }
}

/// The quantiser of the B-blocks of a macroblock.
pub fn pb_bquant(dbquant: u8, quant: u8) -> (q: u8)
    requires
        dbquant <= 3,
        1 <= quant <= 31,
    ensures
        q == b_quantiser(dbquant as int, quant as int),
        1 <= q <= 31,
{
    assert((5 + dbquant) * quant <= 8 * 31) by (nonlinear_arith)
        requires
            dbquant <= 3,
            quant <= 31,
    ;
    assert((5 + dbquant) * quant >= 0) by (nonlinear_arith);
    let q: u32 = (5 + dbquant as u32) * quant as u32 / 4;
    if q < 1 {
        1
    } else if q > 31 {
        31
    } else {
        q as u8
    }
}

/// The pattern of coded B-blocks has block `n` of the six, counted from 1.
pub open spec fn b_block_coded(cbpb: int, n: int) -> bool {
    if n == 1 {
        cbpb / 32 % 2 == 1
    } else if n == 2 {
        cbpb / 16 % 2 == 1
    } else if n == 3 {
        cbpb / 8 % 2 == 1
    } else if n == 4 {
        cbpb / 4 % 2 == 1
    } else if n == 5 {
        cbpb / 2 % 2 == 1
    } else {
        cbpb % 2 == 1
    }
}

/// Tell whether the pattern of coded B-blocks has block `n`.
pub fn cbpb_block_present(cbpb: u8, n: usize) -> (b: bool)
    requires
        1 <= n <= 6,
    ensures
        b == b_block_coded(cbpb as int, n as int),
{
    match n {
        1 => cbpb / 32 % 2 == 1,
        2 => cbpb / 16 % 2 == 1,
        3 => cbpb / 8 % 2 == 1,
        4 => cbpb / 4 % 2 == 1,
        5 => cbpb / 2 % 2 == 1,
        _ => cbpb % 2 == 1,
    }
}

/// A forward vector component: the P-vector's, scaled, and the difference.
pub open spec fn forward_component(v: int, diff: int, trb: int, trd: int) -> int {
    upsample::truncated(trb * v, trd) + diff
}

/// A backward vector component: the P-vector's, scaled, or, where there is a
/// difference, what leads back from the forward one.
pub open spec fn backward_component(v: int, diff: int, trb: int, trd: int) -> int {
    if diff == 0 {
        upsample::truncated((trb - trd) * v, trd)
    } else {
        forward_component(v, diff, trb, trd) - v
    }
}

/// The forward vector of a P-vector.
pub open spec fn forward_vector(mv: MotionVector, diff: Mvd, trb: int, trd: int) -> MotionVector {
    MotionVector {
        dx: forward_component(mv.dx as int, diff.dx_half as int, trb, trd) as i32,
        dy: forward_component(mv.dy as int, diff.dy_half as int, trb, trd) as i32,
    }
}

/// The backward vector of a P-vector.
pub open spec fn backward_vector(mv: MotionVector, diff: Mvd, trb: int, trd: int) -> MotionVector {
    MotionVector {
        dx: backward_component(mv.dx as int, diff.dx_half as int, trb, trd) as i32,
        dy: backward_component(mv.dy as int, diff.dy_half as int, trb, trd) as i32,
    }
}

/// The forward vectors of four P-vectors.
pub open spec fn forward_vectors(
    mvs: Seq<MotionVector>,
    diff: Mvd,
    trb: int,
    trd: int,
) -> Seq<MotionVector> {
    Seq::new(4, |i: int| forward_vector(mvs[i], diff, trb, trd))
}

/// The backward vectors of four P-vectors.
pub open spec fn backward_vectors(
    mvs: Seq<MotionVector>,
    diff: Mvd,
    trb: int,
    trd: int,
) -> Seq<MotionVector> {
    Seq::new(4, |i: int| backward_vector(mvs[i], diff, trb, trd))
}

/// Where a B-macroblock is predicted from.
#[derive(Clone, Copy, Debug, PartialEq, Eq)]
pub enum BSource {
    /// From both pictures, with vectors for each luma block.
    Both { forward: Mb4Mv, backward: Mb4Mv },
    /// From the previous picture, with one vector.
    Previous(MotionVector),
    /// From the P-macroblock.
    Current,
}

/// Where a B-macroblock is predicted from, the vectors as sequences.
pub enum BSourceView {
    Both { forward: Seq<MotionVector>, backward: Seq<MotionVector> },
    Previous(MotionVector),
    Current,
}

impl View for BSource {
    type V = BSourceView;

    open spec fn view(&self) -> BSourceView {
        match *self {
            BSource::Both { forward, backward } => BSourceView::Both {
                forward: forward@,
                backward: backward@,
            },
            BSource::Previous(mv) => BSourceView::Previous(mv),
            BSource::Current => BSourceView::Current,
        }
    }
}

/// A vector that motion compensation can follow.
pub open spec fn moderate(mv: MotionVector) -> bool {
    -1024 <= mv.dx <= 1024 && -1024 <= mv.dy <= 1024
}

impl BSourceView {
    /// The vectors are of moderate length.
    pub open spec fn moderate(self) -> bool {
        match self {
            BSourceView::Both { forward, backward } => {
                &&& forward.len() == 4
                &&& backward.len() == 4
                &&& forall|i: int| 0 <= i < 4 ==> moderate(#[trigger] forward[i])
                &&& forall|i: int| 0 <= i < 4 ==> moderate(#[trigger] backward[i])
            },
            BSourceView::Previous(mv) => mv.in_range(),
            BSourceView::Current => true,
        }
    }
}

/// A square of `n` by `n` samples of a plane.
pub open spec fn square(plane: Seq<u8>, stride: int, x0: int, y0: int, n: int) -> Seq<u8> {
    Seq::new((n * n) as nat, |k: int| plane[(y0 + k / n) * stride + x0 + k % n])
}

/// The mean of a forward prediction and what a backward vector finds inside a
/// square of the current picture; `x` and `y` are the block's place in it.
pub open spec fn blended_block(
    forward: Seq<u8>,
    current: Seq<u8>,
    n: int,
    x: int,
    y: int,
    mv: MotionVector,
) -> Seq<u8> {
    Seq::new(
        64,
        |k: int|
            {
                let x2 = 2 * (x + k % 8) + mv.dx;
                let y2 = 2 * (y + k / 8) + mv.dy;
                if 0 <= x2 <= 2 * n - 2 && 0 <= y2 <= 2 * n - 2 {
                    ((forward[k] + motion::at_half(current, n, n, x2, y2, 0)) / 2) as u8
                } else {
                    forward[k]
                }
            },
    )
}

/// A block of a square.
pub open spec fn block_of(current: Seq<u8>, n: int, x: int, y: int) -> Seq<u8> {
    Seq::new(64, |k: int| current[(y + k / 8) * n + x + k % 8])
}

/// The prediction of luma block `blk`; `current` is the P-macroblock's luma.
pub open spec fn luma_block_prediction(
    source: BSourceView,
    prev: Seq<u8>,
    width: int,
    height: int,
    mb_x: int,
    mb_y: int,
    current: Seq<u8>,
    blk: int,
) -> Seq<u8> {
    let x = 8 * (blk % 2);
    let y = 8 * (blk / 2);
    match source {
        BSourceView::Both { forward, backward } => blended_block(
            motion::predicted_block(prev, width, height, mb_x + x, mb_y + y, forward[blk], 0),
            current,
            16,
            x,
            y,
            backward[blk],
        ),
        BSourceView::Previous(mv) => motion::predicted_block(
            prev,
            width,
            height,
            mb_x + x,
            mb_y + y,
            mv,
            0,
        ),
        BSourceView::Current => block_of(current, 16, x, y),
    }
}

/// The prediction of a chroma block; `current` is the P-macroblock's block.
pub open spec fn chroma_block_prediction(
    source: BSourceView,
    prev: Seq<u8>,
    width: int,
    height: int,
    c_x: int,
    c_y: int,
    current: Seq<u8>,
) -> Seq<u8> {
    match source {
        BSourceView::Both { forward, backward } => blended_block(
            motion::predicted_block(
                prev,
                width,
                height,
                c_x,
                c_y,
                motion::chroma_vector_of_four(forward),
                0,
            ),
            current,
            8,
            0,
            0,
            motion::chroma_vector_of_four(backward),
        ),
        BSourceView::Previous(mv) => motion::predicted_block(
            prev,
            width,
            height,
            c_x,
            c_y,
            motion::chroma_vector(mv),
            0,
        ),
        BSourceView::Current => block_of(current, 8, 0, 0),
    }
}

/// A scaled component.
fn scale(v: i32, numerator: i32, trd: i32) -> (r: i32)
    requires
        -64 <= v <= 64,
        -255 <= numerator <= 255,
        1 <= trd <= 255,
        -7 * trd <= numerator <= 7 * trd,
    ensures
        r == upsample::truncated(numerator * v, trd as int),
        -448 <= r <= 448,
{
    assert(-255 * 64 <= numerator * v <= 255 * 64) by (nonlinear_arith)
        requires
            -64 <= v <= 64,
            -255 <= numerator <= 255,
    ;
    assert(-448 * trd <= numerator * v <= 448 * trd) by (nonlinear_arith)
        requires
            -64 <= v <= 64,
            -7 * trd <= numerator <= 7 * trd,
            1 <= trd,
    ;
    let n: i32 = numerator * v;
    if n >= 0 {
        proof {
            vstd::arithmetic::div_mod::lemma_div_is_ordered(n as int, 448 * trd, trd as int);
            vstd::arithmetic::div_mod::lemma_div_by_multiple(448, trd as int);
            vstd::arithmetic::div_mod::lemma_div_pos_is_pos(n as int, trd as int);
        }
        (n as u32 / trd as u32) as i32
    } else {
        proof {
            vstd::arithmetic::div_mod::lemma_div_is_ordered(-n as int, 448 * trd, trd as int);
            vstd::arithmetic::div_mod::lemma_div_by_multiple(448, trd as int);
            vstd::arithmetic::div_mod::lemma_div_pos_is_pos(-n as int, trd as int);
        }
        -(((-n) as u32 / trd as u32) as i32)
    }
}

/// A forward and a backward vector component.
fn scaled_pair(v: i32, diff: i8, trb: i32, trd: i32) -> (p: (i32, i32))
    requires
        -64 <= v <= 64,
        -32 <= diff <= 31,
        1 <= trb <= 7,
        1 <= trd <= 255,
    ensures
        p.0 == forward_component(v as int, diff as int, trb as int, trd as int),
        p.1 == backward_component(v as int, diff as int, trb as int, trd as int),
        -1024 <= p.0 <= 1024,
        -1024 <= p.1 <= 1024,
{
    let forward: i32 = scale(v, trb, trd) + diff as i32;
    let backward: i32 = if diff == 0 {
        scale(v, trb - trd, trd)
    } else {
        forward - v
    };
    (forward, backward)
}

/// A forward and a backward vector.
fn scaled_vectors(mv: MotionVector, diff: Mvd, trb: i32, trd: i32) -> (p: (
    MotionVector,
    MotionVector,
))
    requires
        mv.in_range(),
        motion::mvd_in_range(diff),
        1 <= trb <= 7,
        1 <= trd <= 255,
    ensures
        p.0 == forward_vector(mv, diff, trb as int, trd as int),
        p.1 == backward_vector(mv, diff, trb as int, trd as int),
        moderate(p.0),
        moderate(p.1),
{
    let (fx, bx): (i32, i32) = scaled_pair(mv.dx, diff.dx_half, trb, trd);
    let (fy, by): (i32, i32) = scaled_pair(mv.dy, diff.dy_half, trb, trd);
    (MotionVector { dx: fx, dy: fy }, MotionVector { dx: bx, dy: by })
}

/// The vectors of a B-macroblock that is predicted from both pictures.
pub fn both_sources(mvs: &Mb4Mv, diff: Mvd, trb: i32, trd: i32) -> (s: BSource)
    requires
        forall|i: int| 0 <= i < 4 ==> (#[trigger] mvs@[i]).in_range(),
        motion::mvd_in_range(diff),
        1 <= trb <= 7,
        1 <= trd <= 255,
    ensures
        s@ == (BSourceView::Both {
            forward: forward_vectors(mvs@, diff, trb as int, trd as int),
            backward: backward_vectors(mvs@, diff, trb as int, trd as int),
        }),
        s@.moderate(),
{
    let (f0, b0): (MotionVector, MotionVector) = scaled_vectors(mvs[0], diff, trb, trd);
    let (f1, b1): (MotionVector, MotionVector) = scaled_vectors(mvs[1], diff, trb, trd);
    let (f2, b2): (MotionVector, MotionVector) = scaled_vectors(mvs[2], diff, trb, trd);
    let (f3, b3): (MotionVector, MotionVector) = scaled_vectors(mvs[3], diff, trb, trd);
    let forward: Mb4Mv = [f0, f1, f2, f3];
    let backward: Mb4Mv = [b0, b1, b2, b3];
    assert(forward@ =~= forward_vectors(mvs@, diff, trb as int, trd as int));
    assert(backward@ =~= backward_vectors(mvs@, diff, trb as int, trd as int));
    BSource::Both { forward, backward }
}

/// A square of `n` by `n` samples of a plane.
pub fn copy_square(plane: &[u8], stride: usize, x0: usize, y0: usize, n: usize) -> (v: Vec<u8>)
    requires
        1 <= n <= 16,
        x0 + n <= stride,
        (y0 + n) * stride <= plane@.len(),
    ensures
        v@ == square(plane@, stride as int, x0 as int, y0 as int, n as int),
{
    let mut v: Vec<u8> = Vec::new();
    let ghost want = square(plane@, stride as int, x0 as int, y0 as int, n as int);
    assert(n * n <= 256) by (nonlinear_arith)
        requires
            1 <= n <= 16,
    ;
    assert(plane.len() == plane@.len());
    let mut k: usize = 0;
    while k < n * n
        invariant
            1 <= n <= 16,
            n * n <= 256,
            k <= n * n,
            x0 + n <= stride,
            (y0 + n) * stride <= plane@.len() <= usize::MAX,
            want == square(plane@, stride as int, x0 as int, y0 as int, n as int),
            v@.len() == k,
            forall|i: int| 0 <= i < k ==> #[trigger] v@[i] == want[i],
        decreases n * n - k,
    {
        let j: usize = k / n;
        let i: usize = k % n;
        proof {
            vstd::arithmetic::div_mod::lemma_multiply_divide_lt(k as int, n as int, n as int);
            scal_upsample::lemma_position(y0 + j, x0 + i, stride as int, y0 + n);
            assert(stride * (y0 + n) == (y0 + n) * stride) by (nonlinear_arith);
            assert(y0 + n <= (y0 + n) * stride) by (nonlinear_arith)
                requires
                    stride >= 1,
                    y0 + n >= 0,
            ;
        }
        v.push(plane[(y0 + j) * stride + (x0 + i)]);
        k = k + 1;
    }
    assert(v@ =~= want);
    v
}

/// The mean of a forward prediction and what a backward vector finds.
#[verifier::spinoff_prover]
fn blend_block(
    forward: &[u8; 64],
    current: &Vec<u8>,
    n: usize,
    x: usize,
    y: usize,
    mv: MotionVector,
) -> (block: [u8; 64])
    requires
        n == 8 || n == 16,
        current@.len() == n * n,
        x + 8 <= n,
        y + 8 <= n,
        moderate(mv),
    ensures
        block@ == blended_block(forward@, current@, n as int, x as int, y as int, mv),
{
    let plane: RefPlane<'_> = RefPlane::new(current.as_slice(), n, n);
    let back: [u8; 64] = motion_compensate_block(&plane, x, y, mv, 0);
    let mut block: [u8; 64] = [0u8; 64];
    let ghost want = blended_block(forward@, current@, n as int, x as int, y as int, mv);
    let mut k: usize = 0;
    while k < 64
        invariant
            k <= 64,
            n == 8 || n == 16,
            x + 8 <= n,
            y + 8 <= n,
            moderate(mv),
            back@ == motion::predicted_block(current@, n as int, n as int, x as int, y as int, mv, 0),
            current@.len() == n * n,
            want == blended_block(forward@, current@, n as int, x as int, y as int, mv),
            forall|i: int| 0 <= i < k ==> #[trigger] block@[i] == want[i],
        decreases 64 - k,
    {
        let x2: i32 = 2 * (x as i32 + (k % 8) as i32) + mv.dx;
        let y2: i32 = 2 * (y as i32 + (k / 8) as i32) + mv.dy;
        let most: i32 = 2 * n as i32 - 2;
        if 0 <= x2 && x2 <= most && 0 <= y2 && y2 <= most {
            proof {
                lemma_at_half_is_a_sample(current@, n as int, x2 as int, y2 as int);
                assert(back@[k as int] == motion::at_half(
                    current@,
                    n as int,
                    n as int,
                    x2 as int,
                    y2 as int,
                    0,
                ) as u8);
            }
            block[k] = ((forward[k] as u32 + back[k] as u32) / 2) as u8;
        } else {
            block[k] = forward[k];
        }
        k = k + 1;
    }
    assert(block@ =~= want);
    block
}

/// What interpolation gives is again a sample.
proof fn lemma_at_half_is_a_sample(p: Seq<u8>, n: int, x2: int, y2: int)
    ensures
        0 <= motion::at_half(p, n, n, x2, y2, 0) <= 255,
{
}

/// Predict luma block `blk` of a B-macroblock.
pub fn predict_luma_block(
    source: &BSource,
    prev: &RefPlane<'_>,
    mb_x: usize,
    mb_y: usize,
    current: &Vec<u8>,
    blk: usize,
) -> (block: [u8; 64])
    requires
        source@.moderate(),
        prev.wf(),
        mb_x + 8 <= 0x1_0000,
        mb_y + 8 <= 0x1_0000,
        current@.len() == 256,
        blk < 4,
    ensures
        block@ == luma_block_prediction(
            source@,
            prev.samples@,
            prev.width as int,
            prev.height as int,
            mb_x as int,
            mb_y as int,
            current@,
            blk as int,
        ),
{
    let x: usize = 8 * (blk % 2);
    let y: usize = 8 * (blk / 2);
    match source {
        BSource::Both { forward, backward } => {
            let f: [u8; 64] = motion_compensate_block(prev, mb_x + x, mb_y + y, forward[blk], 0);
            blend_block(&f, current, 16, x, y, backward[blk])
        },
        BSource::Previous(mv) => motion_compensate_block(prev, mb_x + x, mb_y + y, *mv, 0),
        BSource::Current => take_block(current, 16, x, y),
    }
}

/// Predict a chroma block of a B-macroblock.
pub fn predict_chroma_block(
    source: &BSource,
    prev: &RefPlane<'_>,
    c_x: usize,
    c_y: usize,
    current: &Vec<u8>,
) -> (block: [u8; 64])
    requires
        source@.moderate(),
        prev.wf(),
        c_x <= 0x1_0000,
        c_y <= 0x1_0000,
        current@.len() == 64,
    ensures
        block@ == chroma_block_prediction(
            source@,
            prev.samples@,
            prev.width as int,
            prev.height as int,
            c_x as int,
            c_y as int,
            current@,
        ),
{
    match source {
        BSource::Both { forward, backward } => {
            assert(source@ == (BSourceView::Both { forward: forward@, backward: backward@ }));
            let f: [u8; 64] = motion_compensate_block(prev, c_x, c_y, chroma_mv_4mv(forward), 0);
            blend_block(&f, current, 8, 0, 0, chroma_mv_4mv(backward))
        },
        BSource::Previous(mv) => motion_compensate_block(prev, c_x, c_y, chroma_mv(*mv), 0),
        BSource::Current => take_block(current, 8, 0, 0),
    }
}

/// A block of a square.
fn take_block(current: &Vec<u8>, n: usize, x: usize, y: usize) -> (block: [u8; 64])
    requires
        n == 8 || n == 16,
        current@.len() == n * n,
        x + 8 <= n,
        y + 8 <= n,
    ensures
        block@ == block_of(current@, n as int, x as int, y as int),
{
    let mut block: [u8; 64] = [0u8; 64];
    let ghost want = block_of(current@, n as int, x as int, y as int);
    let mut k: usize = 0;
    while k < 64
        invariant
            k <= 64,
            n == 8 || n == 16,
            current@.len() == n * n,
            x + 8 <= n,
            y + 8 <= n,
            want == block_of(current@, n as int, x as int, y as int),
            forall|i: int| 0 <= i < k ==> #[trigger] block@[i] == want[i],
        decreases 64 - k,
    {
        let j: usize = k / 8;
        let i: usize = k % 8;
        proof {
            scal_upsample::lemma_position(y + j, x + i, n as int, n as int);
        }
        block[k] = current[(y + j) * n + (x + i)];
        k = k + 1;
    }
    assert(block@ =~= want);
    block
}

/// A B-macroblock whose P-vectors and difference are zero is predicted from the
/// place where it stands in both pictures.
pub proof fn resting_macroblocks_stay(trb: int, trd: int)
    requires
        1 <= trb,
        1 <= trd,
    ensures
        forward_component(0, 0, trb, trd) == 0,
        backward_component(0, 0, trb, trd) == 0,
{
    assert(trb * 0 == 0 && (trb - trd) * 0 == 0);
    assert(0int / trd == 0) by {
        vstd::arithmetic::div_mod::lemma_div_basics(trd);
    }
}

} // verus!
