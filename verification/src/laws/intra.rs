//! Laws of reconstructing blocks, with and without Advanced INTRA Coding.

use crate::laws::transform;
use crate::macroblock::IntraMode;
use crate::picture::aic_state;
use crate::residual;
use vstd::prelude::*;

verus! {

/// The zigzag scan names the first two positions of the first column, and no
/// position twice.
#[verifier::spinoff_prover]
#[verifier::rlimit(60)]
proof fn lemma_zigzag(p: int)
    requires
        0 <= p < 64,
    ensures
        0 <= residual::slot_of(residual::Scan::Zigzag, p) < 64,
        residual::slot_of(residual::Scan::Zigzag, p) == 0 <==> p == 0,
        residual::slot_of(residual::Scan::Zigzag, p) == 1 <==> p == 1,
        residual::slot_of(residual::Scan::Zigzag, p) == 2 <==> p == 8,
{
    reveal(residual::slot_of);
    assert(residual::ZIGZAG_SLOTS@[0] == 0);
    assert(residual::ZIGZAG_SLOTS@[1] == 1);
    assert(residual::ZIGZAG_SLOTS@[2] == 5);
    assert(residual::ZIGZAG_SLOTS@[3] == 6);
    assert(residual::ZIGZAG_SLOTS@[4] == 14);
    assert(residual::ZIGZAG_SLOTS@[5] == 15);
    assert(residual::ZIGZAG_SLOTS@[6] == 27);
    assert(residual::ZIGZAG_SLOTS@[7] == 28);
    assert(residual::ZIGZAG_SLOTS@[8] == 2);
    assert(residual::ZIGZAG_SLOTS@[9] == 4);
    assert(residual::ZIGZAG_SLOTS@[10] == 7);
    assert(residual::ZIGZAG_SLOTS@[11] == 13);
    assert(residual::ZIGZAG_SLOTS@[12] == 16);
    assert(residual::ZIGZAG_SLOTS@[13] == 26);
    assert(residual::ZIGZAG_SLOTS@[14] == 29);
    assert(residual::ZIGZAG_SLOTS@[15] == 42);
    assert(residual::ZIGZAG_SLOTS@[16] == 3);
    assert(residual::ZIGZAG_SLOTS@[17] == 8);
    assert(residual::ZIGZAG_SLOTS@[18] == 12);
    assert(residual::ZIGZAG_SLOTS@[19] == 17);
    assert(residual::ZIGZAG_SLOTS@[20] == 25);
    assert(residual::ZIGZAG_SLOTS@[21] == 30);
    assert(residual::ZIGZAG_SLOTS@[22] == 41);
    assert(residual::ZIGZAG_SLOTS@[23] == 43);
    assert(residual::ZIGZAG_SLOTS@[24] == 9);
    assert(residual::ZIGZAG_SLOTS@[25] == 11);
    assert(residual::ZIGZAG_SLOTS@[26] == 18);
    assert(residual::ZIGZAG_SLOTS@[27] == 24);
    assert(residual::ZIGZAG_SLOTS@[28] == 31);
    assert(residual::ZIGZAG_SLOTS@[29] == 40);
    assert(residual::ZIGZAG_SLOTS@[30] == 44);
    assert(residual::ZIGZAG_SLOTS@[31] == 53);
    assert(residual::ZIGZAG_SLOTS@[32] == 10);
    assert(residual::ZIGZAG_SLOTS@[33] == 19);
    assert(residual::ZIGZAG_SLOTS@[34] == 23);
    assert(residual::ZIGZAG_SLOTS@[35] == 32);
    assert(residual::ZIGZAG_SLOTS@[36] == 39);
    assert(residual::ZIGZAG_SLOTS@[37] == 45);
    assert(residual::ZIGZAG_SLOTS@[38] == 52);
    assert(residual::ZIGZAG_SLOTS@[39] == 54);
    assert(residual::ZIGZAG_SLOTS@[40] == 20);
    assert(residual::ZIGZAG_SLOTS@[41] == 22);
    assert(residual::ZIGZAG_SLOTS@[42] == 33);
    assert(residual::ZIGZAG_SLOTS@[43] == 38);
    assert(residual::ZIGZAG_SLOTS@[44] == 46);
    assert(residual::ZIGZAG_SLOTS@[45] == 51);
    assert(residual::ZIGZAG_SLOTS@[46] == 55);
    assert(residual::ZIGZAG_SLOTS@[47] == 60);
    assert(residual::ZIGZAG_SLOTS@[48] == 21);
    assert(residual::ZIGZAG_SLOTS@[49] == 34);
    assert(residual::ZIGZAG_SLOTS@[50] == 37);
    assert(residual::ZIGZAG_SLOTS@[51] == 47);
    assert(residual::ZIGZAG_SLOTS@[52] == 50);
    assert(residual::ZIGZAG_SLOTS@[53] == 56);
    assert(residual::ZIGZAG_SLOTS@[54] == 59);
    assert(residual::ZIGZAG_SLOTS@[55] == 61);
    assert(residual::ZIGZAG_SLOTS@[56] == 35);
    assert(residual::ZIGZAG_SLOTS@[57] == 36);
    assert(residual::ZIGZAG_SLOTS@[58] == 48);
    assert(residual::ZIGZAG_SLOTS@[59] == 49);
    assert(residual::ZIGZAG_SLOTS@[60] == 57);
    assert(residual::ZIGZAG_SLOTS@[61] == 58);
    assert(residual::ZIGZAG_SLOTS@[62] == 62);
    assert(residual::ZIGZAG_SLOTS@[63] == 63);
}

/// An INTRA block with no level behind its first is flat: every sample is an
/// eighth of that level, to the nearest.
pub proof fn blocks_without_more_levels_are_flat(levels: Seq<i16>, quant: int, k: int)
    requires
        levels.len() == 64,
        0 <= levels[0] <= 2040,
        forall|i: int| 0 < i < 64 ==> #[trigger] levels[i] == 0,
        0 <= k < 64,
    ensures
        -4 <= 8 * residual::intra_samples(levels, quant)[k] - levels[0] <= 4,
{
    let c = residual::coefficients(levels, quant, true);
    assert forall|i: int| 0 < i < 64 implies #[trigger] c[i] == 0 by {
        lemma_zigzag(i);
        assert(levels[residual::slot_of(residual::Scan::Zigzag, i)] == 0);
    }
    transform::first_coefficients_are_eight_times_the_mean(c, k);
}

/// An INTRA block whose only level behind the first is a positive one in the third
/// slot, which is the first vertical frequency, never gets brighter downwards.
pub proof fn third_levels_fade_downwards(
    levels: Seq<i16>,
    quant: int,
    x: int,
    y: int,
    lower: int,
)
    requires
        levels.len() == 64,
        1 <= quant <= 31,
        0 <= levels[2],
        forall|i: int| 0 < i < 64 && i != 2 ==> #[trigger] levels[i] == 0,
        0 <= x < 8,
        0 <= y <= lower < 8,
    ensures
        residual::intra_samples(levels, quant)[8 * y + x] >= residual::intra_samples(
            levels,
            quant,
        )[8 * lower + x],
{
    let c = residual::coefficients(levels, quant, true);
    assert forall|i: int| 0 < i < 64 && i != 8 implies #[trigger] c[i] == 0 by {
        lemma_zigzag(i);
        assert(levels[residual::slot_of(residual::Scan::Zigzag, i)] == 0);
    }
    lemma_zigzag(8);
    transform::coefficients_lie_in_the_middle_of_their_steps(levels[2] as int, quant);
    transform::vertical_frequency_fades_on_any_ground(c, x, y, lower);
}

/// A predicted block whose levels are all zero is its prediction.
pub proof fn levels_of_zero_add_nothing(levels: Seq<i16>, quant: int, prediction: Seq<u8>, k: int)
    requires
        levels.len() == 64,
        forall|i: int| 0 <= i < 64 ==> #[trigger] levels[i] == 0,
        0 <= k < 64,
    ensures
        residual::inter_samples(levels, quant, prediction)[k] == prediction[k],
{
    let c = residual::coefficients(levels, quant, false);
    assert forall|i: int| 0 <= i < 64 implies #[trigger] c[i] == 0 by {
        lemma_zigzag(i);
        assert(levels[residual::slot_of(residual::Scan::Zigzag, i)] == 0);
    }
    transform::lemma_single(c, 0, k % 8, k / 8, 8);
}

/// A predicted block whose only level is the first gets brighter by the same
/// amount everywhere, which is an eighth of the coefficient, where that level is
/// positive, and darker where it is negative.
pub proof fn first_levels_add_everywhere(
    levels: Seq<i16>,
    quant: int,
    prediction: Seq<u8>,
    k: int,
)
    requires
        levels.len() == 64,
        1 <= quant <= 31,
        forall|i: int| 0 < i < 64 ==> #[trigger] levels[i] == 0,
        0 <= k < 64,
    ensures
        ({
            let f = residual::dequantised(levels[0] as int, quant);
            let s = residual::inter_samples(levels, quant, prediction)[k] as int;
            &&& levels[0] >= 0 ==> s >= prediction[k]
            &&& levels[0] <= 0 ==> s <= prediction[k]
            &&& 0 < s < 255 && f < 2044 ==> -4 <= 8 * (s - prediction[k]) - f <= 4
        }),
{
    let c = residual::coefficients(levels, quant, false);
    assert forall|i: int| 0 < i < 64 implies #[trigger] c[i] == 0 by {
        lemma_zigzag(i);
        assert(levels[residual::slot_of(residual::Scan::Zigzag, i)] == 0);
    }
    lemma_zigzag(0);
    assert(c[0] == residual::dequantised(levels[0] as int, quant));
    transform::coefficients_lie_in_the_middle_of_their_steps(levels[0] as int, quant);
    transform::first_coefficients_are_eight_times_the_mean(c, k);
    transform::lemma_matrix();
    transform::lemma_single(c, 0, k % 8, k / 8, 8);
    assert(residual::basis(0, k % 8) == 370728 && residual::basis(0, k / 8) == 370728);
}

/// With Advanced INTRA Coding a level changes a coefficient by twice the quantiser
/// times the level; what is predicted is the first coefficient, and with it the
/// first row from the block above or the first column from the block to the left.
pub proof fn advanced_coefficients_are_predicted(
    levels: Seq<i16>,
    mode: IntraMode,
    quant: int,
    a: Seq<i32>,
    b: Seq<i32>,
    p: int,
)
    requires
        0 < p < 64,
        -2048 <= a[p] <= 2047,
        -2048 <= b[p] <= 2047,
    ensures
        ({
            let c = residual::aic_coefficients(levels, mode, quant, Some(a), Some(b))[p];
            let scan = match mode {
                IntraMode::DcOnly => residual::Scan::Zigzag,
                IntraMode::Vertical => residual::Scan::AlternateHorizontal,
                IntraMode::Horizontal => residual::Scan::AlternateVertical,
            };
            let step = 2 * quant * levels[residual::slot_of(scan, p)];
            let from = if mode == IntraMode::Vertical && p < 8 {
                a[p] as int
            } else if mode == IntraMode::Horizontal && p % 8 == 0 {
                b[p] as int
            } else {
                0
            };
            -2048 < c < 2047 ==> c - from == step
        }),
{
}

/// The first coefficient is predicted by the mean of the two neighbours' first
/// coefficients, or by the one that the direction names, or by the one that is
/// there; else by 1024. What comes out is odd.
pub proof fn advanced_first_coefficients_are_predicted(
    levels: Seq<i16>,
    quant: int,
    a: Seq<i32>,
    b: Seq<i32>,
)
    requires
        -2048 <= a[0] <= 2047,
        -2048 <= b[0] <= 2047,
    ensures
        ({
            let step = 2 * quant * levels[0];
            let mean = residual::aic_coefficients(
                levels,
                IntraMode::DcOnly,
                quant,
                Some(a),
                Some(b),
            )[0];
            let above = residual::aic_coefficients(
                levels,
                IntraMode::Vertical,
                quant,
                Some(a),
                Some(b),
            )[0];
            let left = residual::aic_coefficients(
                levels,
                IntraMode::Horizontal,
                quant,
                Some(a),
                Some(b),
            )[0];
            let only_above = residual::aic_coefficients(
                levels,
                IntraMode::DcOnly,
                quant,
                Some(a),
                None,
            )[0];
            let only_left = residual::aic_coefficients(
                levels,
                IntraMode::DcOnly,
                quant,
                None,
                Some(b),
            )[0];
            let alone = residual::aic_coefficients(levels, IntraMode::DcOnly, quant, None, None)[0];
            &&& 0 < mean < 2047 ==> mean % 2 == 1 && -1 <= 2 * (mean - step) - (a[0] + b[0]) <= 2
            &&& 0 < above < 2047 ==> above % 2 == 1 && 0 <= above - step - a[0] <= 1
            &&& 0 < left < 2047 ==> left % 2 == 1 && 0 <= left - step - b[0] <= 1
            &&& 0 < only_above < 2047 ==> only_above % 2 == 1 && 0 <= only_above - step - a[0] <= 1
            &&& 0 < only_left < 2047 ==> only_left % 2 == 1 && 0 <= only_left - step - b[0] <= 1
            &&& 0 < alone < 2047 ==> alone % 2 == 1 && 0 <= alone - step - 1024 <= 1
        }),
{
    scans_begin_with_the_first_coefficient();
}

/// All scans begin with the first coefficient.
pub proof fn scans_begin_with_the_first_coefficient()
    ensures
        residual::slot_of(residual::Scan::Zigzag, 0) == 0,
        residual::slot_of(residual::Scan::AlternateHorizontal, 0) == 0,
        residual::slot_of(residual::Scan::AlternateVertical, 0) == 0,
{
    reveal(residual::slot_of);
}

/// A block is predicted from the block one row higher in its column, and from the
/// one before it in its row, if those are INTRA and of the same segment; at the
/// upper and left edge there is none.
pub proof fn advanced_prediction_looks_up_and_left(
    p: aic_state::AicPlane,
    bx: int,
    by: int,
    segment: u32,
)
    requires
        0 <= bx < p.cols,
        0 <= by,
    ensures
        by == 0 ==> p.above(bx, by, segment) is None,
        bx == 0 ==> p.left(bx, by, segment) is None,
        by > 0 ==> ({
            let k = (by - 1) * p.cols + bx;
            &&& p.above(bx, by, segment) is Some <==> p.meta[k].intra && p.meta[k].segment
                == segment
            &&& p.above(bx, by, segment) matches Some(c) ==> c == p.rec[k]
        }),
        bx > 0 ==> ({
            let k = by * p.cols + (bx - 1);
            &&& p.left(bx, by, segment) is Some <==> p.meta[k].intra && p.meta[k].segment == segment
            &&& p.left(bx, by, segment) matches Some(c) ==> c == p.rec[k]
        }),
{
    assert(by * p.cols + bx - 1 == by * p.cols + (bx - 1));
}

} // verus!
