//! Laws of predicting samples from another picture.

use crate::b_picture;
use crate::macroblock::H263Macroblock;
use crate::motion;
use crate::motion::MotionVector;
use crate::pb_layer::BpbCodingMode;
use crate::picture::b_part;
use crate::picture::b_part::PbTimes;
use crate::picture::frame;
use crate::scal_upsample;
use vstd::prelude::*;

verus! {

/// The sample of a plane at column `x` and row `y`; outside the plane, the one
/// nearest to there.
pub open spec fn nearest(p: Seq<u8>, width: int, height: int, x: int, y: int) -> u8 {
    let cx = if x < 0 {
        0
    } else if x > width - 1 {
        width - 1
    } else {
        x
    };
    let cy = if y < 0 {
        0
    } else if y > height - 1 {
        height - 1
    } else {
        y
    };
    p[cy * width + cx]
}

/// A vector of whole pixels moves samples: the one at column `i` and row `j` of
/// the block is the reference's sample that lies the vector's pixels further to
/// the right and down.
#[verifier::spinoff_prover]
#[verifier::rlimit(50)]
pub proof fn whole_vectors_move_samples(
    p: Seq<u8>,
    width: int,
    height: int,
    x: int,
    y: int,
    px: i32,
    py: i32,
    rcontrol: int,
    i: int,
    j: int,
)
    requires
        0 < width,
        0 < height,
        -1024 <= px <= 1024,
        -1024 <= py <= 1024,
        0 <= i < 8,
        0 <= j < 8,
    ensures
        motion::predicted_block(
            p,
            width,
            height,
            x,
            y,
            MotionVector { dx: (2 * px) as i32, dy: (2 * py) as i32 },
            rcontrol,
        )[8 * j + i] == nearest(p, width, height, x + i + px, y + j + py),
{
    assert((8 * j + i) % 8 == i && (8 * j + i) / 8 == j);
}

/// Between pixels a sample is the mean of the two or four around it. The mean is
/// rounded up at a half, or down with rounding control; of four, by half a step.
#[verifier::spinoff_prover]
#[verifier::rlimit(50)]
pub proof fn half_vectors_take_means(
    p: Seq<u8>,
    width: int,
    height: int,
    x: int,
    y: int,
    px: i32,
    py: i32,
    rcontrol: int,
    i: int,
    j: int,
)
    requires
        0 < width,
        0 < height,
        -1024 <= px <= 1024,
        -1024 <= py <= 1024,
        0 <= rcontrol <= 1,
        0 <= i < 8,
        0 <= j < 8,
    ensures
        ({
            let a = nearest(p, width, height, x + i + px, y + j + py) as int;
            let b = nearest(p, width, height, x + i + px + 1, y + j + py) as int;
            let c = nearest(p, width, height, x + i + px, y + j + py + 1) as int;
            let d = nearest(p, width, height, x + i + px + 1, y + j + py + 1) as int;
            let across = motion::predicted_block(
                p,
                width,
                height,
                x,
                y,
                MotionVector { dx: (2 * px + 1) as i32, dy: (2 * py) as i32 },
                rcontrol,
            )[8 * j + i] as int;
            let down = motion::predicted_block(
                p,
                width,
                height,
                x,
                y,
                MotionVector { dx: (2 * px) as i32, dy: (2 * py + 1) as i32 },
                rcontrol,
            )[8 * j + i] as int;
            let both = motion::predicted_block(
                p,
                width,
                height,
                x,
                y,
                MotionVector { dx: (2 * px + 1) as i32, dy: (2 * py + 1) as i32 },
                rcontrol,
            )[8 * j + i] as int;
            &&& -rcontrol <= 2 * across - (a + b) <= 1 - rcontrol
            &&& -rcontrol <= 2 * down - (a + c) <= 1 - rcontrol
            &&& -1 - rcontrol <= 4 * both - (a + b + c + d) <= 2 - rcontrol
        }),
{
    assert((8 * j + i) % 8 == i && (8 * j + i) / 8 == j);
}

/// The weight of a block's own vector in overlapped prediction, row by row.
pub open spec fn own_weights() -> Seq<int> {
    seq![
        4int, 5, 5, 5, 5, 5, 5, 4,
        5, 5, 5, 5, 5, 5, 5, 5,
        5, 5, 6, 6, 6, 6, 5, 5,
        5, 5, 6, 6, 6, 6, 5, 5,
        5, 5, 6, 6, 6, 6, 5, 5,
        5, 5, 6, 6, 6, 6, 5, 5,
        5, 5, 5, 5, 5, 5, 5, 5,
        4, 5, 5, 5, 5, 5, 5, 4,
    ]
}

/// The weight of the vectors above and below, row by row.
pub open spec fn vertical_weights() -> Seq<int> {
    seq![
        2int, 2, 2, 2, 2, 2, 2, 2,
        1, 1, 2, 2, 2, 2, 1, 1,
        1, 1, 1, 1, 1, 1, 1, 1,
        1, 1, 1, 1, 1, 1, 1, 1,
        1, 1, 1, 1, 1, 1, 1, 1,
        1, 1, 1, 1, 1, 1, 1, 1,
        1, 1, 2, 2, 2, 2, 1, 1,
        2, 2, 2, 2, 2, 2, 2, 2,
    ]
}

/// The weight of the vectors to the left and right, row by row.
pub open spec fn horizontal_weights() -> Seq<int> {
    seq![
        2int, 1, 1, 1, 1, 1, 1, 2,
        2, 2, 1, 1, 1, 1, 2, 2,
        2, 2, 1, 1, 1, 1, 2, 2,
        2, 2, 1, 1, 1, 1, 2, 2,
        2, 2, 1, 1, 1, 1, 2, 2,
        2, 2, 1, 1, 1, 1, 2, 2,
        2, 2, 1, 1, 1, 1, 2, 2,
        2, 1, 1, 1, 1, 1, 1, 2,
    ]
}

/// Overlapped prediction is the weighted mean of three, rounded to the nearest:
/// by the block's own vector, by that of the block above or below, whichever is
/// nearer, and by that of the block to the left or right, whichever is nearer.
#[verifier::spinoff_prover]
#[verifier::rlimit(60)]
pub proof fn overlapped_prediction_is_a_weighted_mean(
    own: Seq<u8>,
    above: Seq<u8>,
    below: Seq<u8>,
    left: Seq<u8>,
    right: Seq<u8>,
    i: int,
    j: int,
)
    requires
        0 <= i < 8,
        0 <= j < 8,
    ensures
        ({
            let k = 8 * j + i;
            let v = if j <= 3 {
                above[k]
            } else {
                below[k]
            };
            let h = if i <= 3 {
                left[k]
            } else {
                right[k]
            };
            let s = motion::overlapped(own, above, below, left, right)[k] as int;
            let exact = own_weights()[k] * own[k] + vertical_weights()[k] * v
                + horizontal_weights()[k] * h;
            -3 <= 8 * s - exact <= 4
        }),
{
    let k = 8 * j + i;
    assert(k % 8 == i && k / 8 == j);
    assert(i == 0 || i == 1 || i == 2 || i == 3 || i == 4 || i == 5 || i == 6 || i == 7);
    assert(j == 0 || j == 1 || j == 2 || j == 3 || j == 4 || j == 5 || j == 6 || j == 7);
    assert(own_weights()[k] == motion::own_weight(j, i));
    assert(vertical_weights()[k] == motion::vertical_weight(j, i));
    assert(horizontal_weights()[k] == motion::horizontal_weight(j, i));
    let v = if j <= 3 {
        above[k]
    } else {
        below[k]
    };
    let h = if i <= 3 {
        left[k]
    } else {
        right[k]
    };
    let a = own_weights()[k];
    let b = vertical_weights()[k];
    let c = horizontal_weights()[k];
    assert(a + b + c == 8 && a >= 0 && b >= 0 && c >= 0);
    assert(0 <= a * own[k] + b * v + c * h <= 8 * 255) by (nonlinear_arith)
        requires
            a + b + c == 8,
            a >= 0,
            b >= 0,
            c >= 0,
            0 <= own[k] <= 255,
            0 <= v <= 255,
            0 <= h <= 255,
    ;
}

/// A sample of a B-block that is predicted from both pictures is the mean of the
/// forward prediction and of what the backward vector finds in the P-macroblock,
/// rounded down; where that would lie outside the macroblock, the forward
/// prediction stands alone.
#[verifier::spinoff_prover]
#[verifier::rlimit(50)]
pub proof fn b_samples_are_means_inside_the_macroblock(
    forward: Seq<u8>,
    current: Seq<u8>,
    n: int,
    x: int,
    y: int,
    px: i32,
    py: i32,
    i: int,
    j: int,
)
    requires
        n == 8 || n == 16,
        current.len() == n * n,
        -512 <= px <= 512,
        -512 <= py <= 512,
        0 <= i < 8,
        0 <= j < 8,
    ensures
        ({
            let k = 8 * j + i;
            let s = b_picture::blended_block(
                forward,
                current,
                n,
                x,
                y,
                MotionVector { dx: (2 * px) as i32, dy: (2 * py) as i32 },
            )[k] as int;
            let cx = x + i + px;
            let cy = y + j + py;
            if 0 <= cx < n && 0 <= cy < n {
                -1 <= 2 * s - (forward[k] + current[cy * n + cx]) <= 0
            } else {
                s == forward[k]
            }
        }),
{
    assert((8 * j + i) % 8 == i && (8 * j + i) / 8 == j);
}

/// A B-macroblock that is predicted from the P-macroblock alone copies it, plane
/// by plane.
pub proof fn backward_b_macroblocks_copy_the_p_macroblock(
    r: frame::Planes,
    p: frame::Planes,
    col: int,
    row: int,
    i: int,
    j: int,
)
    requires
        0 <= i < 8,
        0 <= j < 8,
    ensures
        ({
            let b = b_part::b_predictions(b_picture::BSourceView::Current, r, p, col, row);
            let k = 8 * j + i;
            let x = 16 * col;
            let y = 16 * row;
            &&& b.len() == 6
            &&& b[0][k] == p.y[(y + j) * p.width + (x + i)]
            &&& b[1][k] == p.y[(y + j) * p.width + (x + 8 + i)]
            &&& b[2][k] == p.y[(y + 8 + j) * p.width + (x + i)]
            &&& b[3][k] == p.y[(y + 8 + j) * p.width + (x + 8 + i)]
            &&& b[4][k] == p.cb[(8 * row + j) * (p.width / 2) + (8 * col + i)]
            &&& b[5][k] == p.cr[(8 * row + j) * (p.width / 2) + (8 * col + i)]
        }),
{
    let k = 8 * j + i;
    assert(k % 8 == i && k / 8 == j);
    lemma_square(p.y, p.width, 16 * col, 16 * row, 16, i, j);
    lemma_square(p.y, p.width, 16 * col, 16 * row, 16, 8 + i, j);
    lemma_square(p.y, p.width, 16 * col, 16 * row, 16, i, 8 + j);
    lemma_square(p.y, p.width, 16 * col, 16 * row, 16, 8 + i, 8 + j);
    lemma_square(p.cb, p.width / 2, 8 * col, 8 * row, 8, i, j);
    lemma_square(p.cr, p.width / 2, 8 * col, 8 * row, 8, i, j);
}

/// A sample of a square of a plane.
proof fn lemma_square(p: Seq<u8>, stride: int, x0: int, y0: int, n: int, i: int, j: int)
    requires
        n == 8 || n == 16,
        0 <= i < n,
        0 <= j < n,
    ensures
        b_picture::square(p, stride, x0, y0, n)[j * n + i] == p[(y0 + j) * stride + (x0 + i)],
        b_picture::square(p, stride, x0, y0, n).len() == n * n,
{
    scal_upsample::lemma_position(j, i, n, n);
    assert((y0 + j) * stride + x0 + i == (y0 + j) * stride + (x0 + i));
}

/// A B-macroblock that is predicted from the previous picture alone does not see
/// the P-macroblock.
pub proof fn forward_b_macroblocks_ignore_the_p_macroblock(
    r: frame::Planes,
    p: frame::Planes,
    q: frame::Planes,
    col: int,
    row: int,
    mv: MotionVector,
)
    ensures
        b_part::b_predictions(b_picture::BSourceView::Previous(mv), r, p, col, row)
            == b_part::b_predictions(b_picture::BSourceView::Previous(mv), r, q, col, row),
{
    let source = b_picture::BSourceView::Previous(mv);
    assert(b_part::b_predictions(source, r, p, col, row) =~= b_part::b_predictions(
        source,
        r,
        q,
        col,
        row,
    ));
}

/// The predictions by one vector from the previous picture.
proof fn lemma_from_previous(
    r: frame::Planes,
    p: frame::Planes,
    col: int,
    row: int,
    mv: MotionVector,
    n: int,
)
    requires
        0 <= n < 6,
    ensures
        b_part::b_predictions(b_picture::BSourceView::Previous(mv), r, p, col, row)[n] == if n
            < 4 {
            motion::predicted_block(
                r.y,
                r.width,
                r.height,
                16 * col + 8 * (n % 2),
                16 * row + 8 * (n / 2),
                mv,
                0,
            )
        } else {
            motion::predicted_block(
                if n == 4 {
                    r.cb
                } else {
                    r.cr
                },
                r.width / 2,
                r.height / 2,
                8 * col,
                8 * row,
                motion::chroma_vector(mv),
                0,
            )
        },
{
    assert(n == 0 || n == 1 || n == 2 || n == 3 || n == 4 || n == 5);
}

/// Its luma samples are those that its vector finds in the previous picture.
#[verifier::spinoff_prover]
#[verifier::rlimit(50)]
pub proof fn forward_b_luma_is_moved(
    r: frame::Planes,
    p: frame::Planes,
    col: int,
    row: int,
    px: i32,
    py: i32,
    n: int,
    i: int,
    j: int,
)
    requires
        -32 <= px <= 32,
        -32 <= py <= 32,
        0 <= n < 4,
        0 <= i < 8,
        0 <= j < 8,
        0 < r.width,
        0 < r.height,
    ensures
        b_part::b_predictions(
            b_picture::BSourceView::Previous(
                MotionVector { dx: (2 * px) as i32, dy: (2 * py) as i32 },
            ),
            r,
            p,
            col,
            row,
        )[n][8 * j + i] == nearest(
            r.y,
            r.width,
            r.height,
            16 * col + 8 * (n % 2) + i + px,
            16 * row + 8 * (n / 2) + j + py,
        ),
{
    let mv = MotionVector { dx: (2 * px) as i32, dy: (2 * py) as i32 };
    lemma_from_previous(r, p, col, row, mv, n);
    whole_vectors_move_samples(
        r.y,
        r.width,
        r.height,
        16 * col + 8 * (n % 2),
        16 * row + 8 * (n / 2),
        px,
        py,
        0,
        i,
        j,
    );
}

/// Its chroma samples are those that half the vector finds in the planes of the
/// same kind.
#[verifier::spinoff_prover]
#[verifier::rlimit(50)]
pub proof fn forward_b_chroma_is_moved_half_as_far(
    r: frame::Planes,
    p: frame::Planes,
    col: int,
    row: int,
    px: i32,
    py: i32,
    i: int,
    j: int,
)
    requires
        -16 <= px <= 16,
        -16 <= py <= 16,
        0 <= i < 8,
        0 <= j < 8,
        2 <= r.width,
        2 <= r.height,
    ensures
        ({
            let b = b_part::b_predictions(
                b_picture::BSourceView::Previous(
                    MotionVector { dx: (4 * px) as i32, dy: (4 * py) as i32 },
                ),
                r,
                p,
                col,
                row,
            );
            let x = 8 * col + i + px;
            let y = 8 * row + j + py;
            &&& b[4][8 * j + i] == nearest(r.cb, r.width / 2, r.height / 2, x, y)
            &&& b[5][8 * j + i] == nearest(r.cr, r.width / 2, r.height / 2, x, y)
        }),
{
    let mv = MotionVector { dx: (4 * px) as i32, dy: (4 * py) as i32 };
    lemma_from_previous(r, p, col, row, mv, 4);
    lemma_from_previous(r, p, col, row, mv, 5);
    assert(motion::chroma_vector(mv) == (MotionVector {
        dx: (2 * px) as i32,
        dy: (2 * py) as i32,
    }));
    let w = r.width / 2;
    let h = r.height / 2;
    whole_vectors_move_samples(r.cb, w, h, 8 * col, 8 * row, px, py, 0, i, j);
    whole_vectors_move_samples(r.cr, w, h, 8 * col, 8 * row, px, py, 0, i, j);
}

/// A luma block of a B-macroblock that is predicted from both pictures takes what its
/// forward vector finds in the previous picture at the block's own place, and the mean
/// with what its backward vector finds in the P-macroblock.
pub proof fn b_luma_blocks_look_both_ways(
    r: frame::Planes,
    p: frame::Planes,
    col: int,
    row: int,
    forward: Seq<MotionVector>,
    backward: Seq<MotionVector>,
    n: int,
)
    requires
        0 <= n < 4,
    ensures
        ({
            let x = 8 * (n % 2);
            let y = 8 * (n / 2);
            b_part::b_predictions(
                b_picture::BSourceView::Both { forward, backward },
                r,
                p,
                col,
                row,
            )[n] == b_picture::blended_block(
                motion::predicted_block(
                    r.y,
                    r.width,
                    r.height,
                    16 * col + x,
                    16 * row + y,
                    forward[n],
                    0,
                ),
                b_picture::square(p.y, p.width, 16 * col, 16 * row, 16),
                16,
                x,
                y,
                backward[n],
            )
        }),
{
    assert(n == 0 || n == 1 || n == 2 || n == 3);
}

/// The chroma blocks of such a macroblock do the same in the planes of their own kind,
/// with the vectors that the four luma vectors make.
pub proof fn b_chroma_blocks_look_both_ways(
    r: frame::Planes,
    p: frame::Planes,
    col: int,
    row: int,
    forward: Seq<MotionVector>,
    backward: Seq<MotionVector>,
)
    ensures
        ({
            let b = b_part::b_predictions(
                b_picture::BSourceView::Both { forward, backward },
                r,
                p,
                col,
                row,
            );
            let f = motion::chroma_vector_of_four(forward);
            let back = motion::chroma_vector_of_four(backward);
            let w = r.width / 2;
            let h = r.height / 2;
            &&& b[4] == b_picture::blended_block(
                motion::predicted_block(r.cb, w, h, 8 * col, 8 * row, f, 0),
                b_picture::square(p.cb, p.width / 2, 8 * col, 8 * row, 8),
                8,
                0,
                0,
                back,
            )
            &&& b[5] == b_picture::blended_block(
                motion::predicted_block(r.cr, w, h, 8 * col, 8 * row, f, 0),
                b_picture::square(p.cr, p.width / 2, 8 * col, 8 * row, 8),
                8,
                0,
                0,
                back,
            )
        }),
{
}

/// A macroblock of an improved PB-frame that says nothing else is predicted from both
/// pictures without a difference; forward prediction has a vector of its own, and
/// backward prediction takes the P-macroblock as it is.
pub proof fn improved_b_macroblocks_choose_their_source(
    mb: H263Macroblock,
    mvs4: Seq<MotionVector>,
    left: Option<MotionVector>,
    pb: PbTimes,
)
    requires
        pb.annex_m,
    ensures
        ({
            let s = b_part::b_source(mb, mvs4, left, pb);
            &&& mb.annex_m_modb is None ==> s is Both
            &&& mb.annex_m_modb matches Some(m) ==> {
                &&& m.mode == BpbCodingMode::Bidirectional ==> s is Both
                &&& m.mode == BpbCodingMode::Forward ==> s is Previous
                &&& m.mode == BpbCodingMode::Backward ==> s is Current
            }
            &&& s is Both ==> s == b_part::b_source(
                H263Macroblock { mvdb: None, ..mb },
                mvs4,
                left,
                PbTimes { annex_m: false, ..pb },
            )
        }),
{
}

} // verus!
