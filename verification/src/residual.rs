//! Reconstruction of blocks from their levels.
//!
//! Levels are put from scan order into place and multiplied by the quantiser;
//! the inverse transform makes sample differences of them.

use crate::block::H263Block;
use crate::block_layer;
use crate::macroblock::IntraMode;
use crate::picture::aic_state::Neighbour;
use vstd::prelude::*;

verus! {

/// The zigzag scan: the slot of each position of a block, row by row.
pub const ZIGZAG_SLOTS: [u8; 64] = [
    0, 1, 5, 6, 14, 15, 27, 28,
    2, 4, 7, 13, 16, 26, 29, 42,
    3, 8, 12, 17, 25, 30, 41, 43,
    9, 11, 18, 24, 31, 40, 44, 53,
    10, 19, 23, 32, 39, 45, 52, 54,
    20, 22, 33, 38, 46, 51, 55, 60,
    21, 34, 37, 47, 50, 56, 59, 61,
    35, 36, 48, 49, 57, 58, 62, 63,
];

/// The alternate horizontal scan: the slot of each position of a block.
pub const ALTERNATE_HORIZONTAL_SLOTS: [u8; 64] = [
    0, 1, 2, 3, 10, 11, 12, 13,
    4, 5, 8, 9, 17, 16, 15, 14,
    6, 7, 19, 18, 26, 27, 28, 29,
    20, 21, 24, 25, 30, 31, 32, 33,
    22, 23, 34, 35, 42, 43, 44, 45,
    36, 37, 40, 41, 46, 47, 48, 49,
    38, 39, 50, 51, 56, 57, 58, 59,
    52, 53, 54, 55, 60, 61, 62, 63,
];

/// The alternate vertical scan: the slot of each position of a block.
pub const ALTERNATE_VERTICAL_SLOTS: [u8; 64] = [
    0, 4, 6, 20, 22, 36, 38, 52,
    1, 5, 7, 21, 23, 37, 39, 53,
    2, 8, 19, 24, 34, 40, 50, 54,
    3, 9, 18, 25, 35, 41, 51, 55,
    10, 17, 26, 30, 42, 46, 56, 60,
    11, 16, 27, 31, 43, 47, 57, 61,
    12, 15, 28, 32, 44, 48, 58, 62,
    13, 14, 29, 33, 45, 49, 59, 63,
];

/// Which scan a block's levels come in.
#[derive(Clone, Copy, Debug, PartialEq, Eq, Structural)]
pub enum Scan {
    Zigzag,
    AlternateHorizontal,
    AlternateVertical,
}

/// The slot of a position of a block in a scan.
#[verifier::opaque]
pub open spec fn slot_of(scan: Scan, position: int) -> int {
    (match scan {
        Scan::Zigzag => ZIGZAG_SLOTS@[position],
        Scan::AlternateHorizontal => ALTERNATE_HORIZONTAL_SLOTS@[position],
        Scan::AlternateVertical => ALTERNATE_VERTICAL_SLOTS@[position],
    }) as int
}

/// The slot of a position of a block in a scan.
#[verifier::spinoff_prover]
fn slot(scan: Scan, position: usize) -> (k: usize)
    requires
        position < 64,
    ensures
        k == slot_of(scan, position as int),
        k < 64,
{
    proof {
        reveal(slot_of);
        lemma_slots();
    }
    match scan {
        Scan::Zigzag => ZIGZAG_SLOTS[position] as usize,
        Scan::AlternateHorizontal => ALTERNATE_HORIZONTAL_SLOTS[position] as usize,
        Scan::AlternateVertical => ALTERNATE_VERTICAL_SLOTS[position] as usize,
    }
}

/// Every slot is one of a block's.
#[verifier::spinoff_prover]
proof fn lemma_slots()
    ensures
        forall|i: int| 0 <= i < 64 ==> #[trigger] ZIGZAG_SLOTS@[i] < 64,
        forall|i: int| 0 <= i < 64 ==> #[trigger] ALTERNATE_HORIZONTAL_SLOTS@[i] < 64,
        forall|i: int| 0 <= i < 64 ==> #[trigger] ALTERNATE_VERTICAL_SLOTS@[i] < 64,
{
}

/// `v` between `low` and `high`.
pub open spec fn clamped(v: int, low: int, high: int) -> int {
    if v < low {
        low
    } else if v > high {
        high
    } else {
        v
    }
}

/// A coefficient from its level.
pub open spec fn dequantised(level: int, quant: int) -> int {
    let even = if quant % 2 == 0 {
        1int
    } else {
        0
    };
    if level == 0 {
        0
    } else if level > 0 {
        clamped(quant * (2 * level + 1) - even, -2048, 2047)
    } else {
        clamped(-(quant * (-2 * level + 1) - even), -2048, 2047)
    }
}

/// A block's coefficients by position. With `intradc` the first is INTRADC's
/// reconstruction level.
pub open spec fn coefficients(levels: Seq<i16>, quant: int, intradc: bool) -> Seq<int> {
    Seq::new(
        64,
        |p: int|
            if intradc && p == 0 {
                levels[0] as int
            } else {
                dequantised(levels[slot_of(Scan::Zigzag, p)] as int, quant)
            },
    )
}

/// Half the cosine of `m` sixteenths of a half turn, times two to the power of
/// twenty.
pub open spec fn cosine(m: int) -> int {
    if m > 16 {
        quarter_cosine(if 32 - m > 8 {
            m - 16
        } else {
            32 - m
        }, 32 - m > 8)
    } else {
        quarter_cosine(if m > 8 {
            16 - m
        } else {
            m
        }, m > 8)
    }
}

/// Half the cosine of `m` sixteenths of a half turn, up to a quarter turn, or
/// its negative.
pub open spec fn quarter_cosine(m: int, negative: bool) -> int {
    let c = if m == 0 {
        524288int
    } else if m == 1 {
        514214
    } else if m == 2 {
        484379
    } else if m == 3 {
        435930
    } else if m == 4 {
        370728
    } else if m == 5 {
        291279
    } else if m == 6 {
        200636
    } else if m == 7 {
        102284
    } else {
        0
    };
    if negative {
        -c
    } else {
        c
    }
}

/// Sample `x` of the transform's basis function `u`, times two to the power of
/// twenty.
pub open spec fn basis(u: int, x: int) -> int {
    if u == 0 {
        370728
    } else {
        cosine(((2 * x + 1) * u) % 32)
    }
}

/// The first `n` terms of the sum over row `v` of the coefficients, for column
/// `x` of the samples.
pub open spec fn row_sum(c: Seq<int>, v: int, x: int, n: int) -> int
    decreases n,
{
    if n <= 0 {
        0
    } else {
        row_sum(c, v, x, n - 1) + basis(n - 1, x) * c[8 * v + n - 1]
    }
}

/// The first `n` terms of the sum over all rows, for column `x` and row `y` of
/// the samples.
pub open spec fn column_sum(c: Seq<int>, x: int, y: int, n: int) -> int
    decreases n,
{
    if n <= 0 {
        0
    } else {
        column_sum(c, x, y, n - 1) + basis(n - 1, y) * row_sum(c, n - 1, x, 8)
    }
}

/// The inverse transform, rounded to the nearest number and kept between -256
/// and 255.
pub open spec fn inverse_transform(c: Seq<int>) -> Seq<int> {
    Seq::new(
        64,
        |k: int|
            clamped(
                (column_sum(c, k % 8, k / 8, 8) + 0x80_0000_0000) / 0x100_0000_0000,
                -256,
                255,
            ),
    )
}

/// The samples of a block that is not predicted.
pub open spec fn plain_samples(c: Seq<int>) -> Seq<u8> {
    Seq::new(64, |k: int| clamped(inverse_transform(c)[k], 0, 255) as u8)
}

/// The samples of a predicted block.
pub open spec fn summed_samples(c: Seq<int>, prediction: Seq<u8>) -> Seq<u8> {
    Seq::new(64, |k: int| clamped(prediction[k] + inverse_transform(c)[k], 0, 255) as u8)
}

fn clamp(v: i32, low: i32, high: i32) -> (r: i32)
    requires
        low <= high,
    ensures
        r == clamped(v as int, low as int, high as int),
        low <= r <= high,
{
    if v < low {
        low
    } else if v > high {
        high
    } else {
        v
    }
}

/// A coefficient from its level.
fn dequantise(level: i16, quant: u8) -> (c: i32)
    requires
        1 <= quant <= 31,
        -2048 <= level <= 2047,
    ensures
        c == dequantised(level as int, quant as int),
        -2048 <= c <= 2047,
{
    let q: i32 = quant as i32;
    let even: i32 = if quant % 2 == 0 {
        1
    } else {
        0
    };
    let m: i32 = if level < 0 {
        -(level as i32)
    } else {
        level as i32
    };
    assert(0 <= q * (2 * m + 1) <= 31 * 4097) by (nonlinear_arith)
        requires
            0 <= q <= 31,
            0 <= m <= 2048,
    ;
    let product: i32 = q * (2 * m + 1) - even;
    if level == 0 {
        0
    } else if level > 0 {
        clamp(product, -2048, 2047)
    } else {
        clamp(-product, -2048, 2047)
    }
}

/// The coefficients are within range.
pub open spec fn coefficients_in_range(c: Seq<i32>) -> bool {
    &&& c.len() == 64
    &&& forall|k: int| 0 <= k < 64 ==> -2048 <= #[trigger] c[k] <= 2047
}

/// Machine numbers as mathematical ones.
pub open spec fn as_ints(c: Seq<i32>) -> Seq<int> {
    c.map_values(|v: i32| v as int)
}

/// Put a block's levels into place and multiply them by the quantiser.
fn dequantise_block(block: &H263Block, quant: u8, intradc: bool) -> (c: [i32; 64])
    requires
        1 <= quant <= 31,
        block_layer::levels_in_range(block.coefficients@),
    ensures
        as_ints(c@) == coefficients(block.coefficients@, quant as int, intradc),
        coefficients_in_range(c@),
{
    let mut c: [i32; 64] = [0i32; 64];
    let ghost want = coefficients(block.coefficients@, quant as int, intradc);
    let mut p: usize = 0;
    while p < 64
        invariant
            p <= 64,
            1 <= quant <= 31,
            block_layer::levels_in_range(block.coefficients@),
            want == coefficients(block.coefficients@, quant as int, intradc),
            forall|i: int|
                0 <= i < 64 ==> -2048 <= #[trigger] c@[i] <= 2047 && (i < p ==> c@[i] == want[i]),
        decreases 64 - p,
    {
        if intradc && p == 0 {
            c[p] = block.coefficients[0] as i32;
        } else {
            let k: usize = slot(Scan::Zigzag, p);
            c[p] = dequantise(block.coefficients[k], quant);
        }
        p = p + 1;
    }
    assert(as_ints(c@) =~= want);
    c
}

fn half_cosine(m: usize, negative: bool) -> (c: i64)
    requires
        m <= 8,
    ensures
        c == quarter_cosine(m as int, negative),
        -524288 <= c <= 524288,
{
    let c: i64 = match m {
        0 => 524288,
        1 => 514214,
        2 => 484379,
        3 => 435930,
        4 => 370728,
        5 => 291279,
        6 => 200636,
        7 => 102284,
        _ => 0,
    };
    if negative {
        -c
    } else {
        c
    }
}

/// Sample `x` of the transform's basis function `u`.
fn basis_sample(u: usize, x: usize) -> (b: i64)
    requires
        u < 8,
        x < 8,
    ensures
        b == basis(u as int, x as int),
        -524288 <= b <= 524288,
{
    if u == 0 {
        return 370728;
    }
    assert((2 * x + 1) * u <= 15 * 7) by (nonlinear_arith)
        requires
            x <= 7,
            u <= 7,
    ;
    let m: usize = ((2 * x + 1) * u) % 32;
    if m > 16 {
        if 32 - m > 8 {
            half_cosine(m - 16, true)
        } else {
            half_cosine(32 - m, false)
        }
    } else if m > 8 {
        half_cosine(16 - m, true)
    } else {
        half_cosine(m, false)
    }
}

/// A product of a basis sample and a bounded number.
proof fn lemma_term(b: int, c: int, bound: int)
    requires
        -524288 <= b <= 524288,
        -bound <= c <= bound,
    ensures
        -524288 * bound <= b * c <= 524288 * bound,
{
    assert(-524288 * bound <= b * c <= 524288 * bound) by (nonlinear_arith)
        requires
            -524288 <= b <= 524288,
            -bound <= c <= bound,
    ;
}

/// The sum over row `v` of the coefficients, for column `x` of the samples.
fn sum_row(c: &[i32; 64], v: usize, x: usize) -> (t: i64)
    requires
        coefficients_in_range(c@),
        v < 8,
        x < 8,
    ensures
        t == row_sum(as_ints(c@), v as int, x as int, 8),
        -0x2_0000_0000 <= t <= 0x2_0000_0000,
{
    let mut t: i64 = 0;
    let mut u: usize = 0;
    while u < 8
        invariant
            u <= 8,
            v < 8,
            x < 8,
            coefficients_in_range(c@),
            t == row_sum(as_ints(c@), v as int, x as int, u as int),
            -0x4000_0000 * u <= t <= 0x4000_0000 * u,
        decreases 8 - u,
    {
        let b: i64 = basis_sample(u, x);
        let f: i64 = c[8 * v + u] as i64;
        proof {
            lemma_term(b as int, f as int, 2048);
        }
        t = t + b * f;
        u = u + 1;
    }
    t
}

/// The inverse transform.
#[verifier::spinoff_prover]
fn idct_8x8(c: &[i32; 64]) -> (r: [i32; 64])
    requires
        coefficients_in_range(c@),
    ensures
        as_ints(r@) == inverse_transform(as_ints(c@)),
        forall|k: int| 0 <= k < 64 ==> -256 <= #[trigger] r@[k] <= 255,
{
    let ghost ci = as_ints(c@);
    let mut rows: [i64; 64] = [0i64; 64];
    let mut k: usize = 0;
    while k < 64
        invariant
            k <= 64,
            coefficients_in_range(c@),
            ci == as_ints(c@),
            forall|i: int|
                0 <= i < 64 ==> -0x2_0000_0000 <= #[trigger] rows@[i] <= 0x2_0000_0000 && (i < k
                    ==> rows@[i] == row_sum(ci, i / 8, i % 8, 8)),
        decreases 64 - k,
    {
        rows[k] = sum_row(c, k / 8, k % 8);
        k = k + 1;
    }
    let mut r: [i32; 64] = [0i32; 64];
    let ghost want = inverse_transform(ci);
    let mut j: usize = 0;
    while j < 64
        invariant
            j <= 64,
            want == inverse_transform(ci),
            forall|i: int|
                0 <= i < 64 ==> -0x2_0000_0000 <= #[trigger] rows@[i] <= 0x2_0000_0000
                    && rows@[i] == row_sum(ci, i / 8, i % 8, 8),
            forall|i: int|
                0 <= i < 64 ==> -256 <= #[trigger] r@[i] <= 255 && (i < j ==> r@[i] == want[i]),
        decreases 64 - j,
    {
        let x: usize = j % 8;
        let y: usize = j / 8;
        let mut t: i64 = 0;
        let mut v: usize = 0;
        while v < 8
            invariant
                v <= 8,
                x < 8,
                y < 8,
                forall|i: int|
                    0 <= i < 64 ==> -0x2_0000_0000 <= #[trigger] rows@[i] <= 0x2_0000_0000
                        && rows@[i] == row_sum(ci, i / 8, i % 8, 8),
                t == column_sum(ci, x as int, y as int, v as int),
                -0x10_0000_0000_0000 * v <= t <= 0x10_0000_0000_0000 * v,
            decreases 8 - v,
        {
            let b: i64 = basis_sample(v, y);
            let f: i64 = rows[8 * v + x];
            proof {
                lemma_term(b as int, f as int, 0x2_0000_0000);
                assert((8 * v + x) / 8 == v && (8 * v + x) % 8 == x);
            }
            t = t + b * f;
            v = v + 1;
        }
        let shifted: u64 = (t + 0x80_0000_0000 + 0x1000_0000_0000_0000) as u64;
        let rounded: i64 = (shifted / 0x100_0000_0000) as i64 - 0x10_0000;
        r[j] = if rounded < -256 {
            -256
        } else if rounded > 255 {
            255
        } else {
            rounded as i32
        };
        j = j + 1;
    }
    assert(as_ints(r@) =~= want);
    r
}

/// The samples of a block whose coefficients are not predicted from another
/// picture.
pub fn samples_of(c: &[i32; 64]) -> (samples: [u8; 64])
    requires
        coefficients_in_range(c@),
    ensures
        samples@ == plain_samples(as_ints(c@)),
{
    let d: [i32; 64] = idct_8x8(c);
    let mut samples: [u8; 64] = [0u8; 64];
    let ghost want = plain_samples(as_ints(c@));
    let mut k: usize = 0;
    while k < 64
        invariant
            k <= 64,
            want == plain_samples(as_ints(c@)),
            as_ints(d@) == inverse_transform(as_ints(c@)),
            forall|i: int| 0 <= i < k ==> #[trigger] samples@[i] == want[i],
        decreases 64 - k,
    {
        assert(as_ints(d@)[k as int] == d@[k as int]);
        samples[k] = clamp(d[k], 0, 255) as u8;
        k = k + 1;
    }
    assert(samples@ =~= want);
    samples
}

/// The samples of an INTRA block.
pub open spec fn intra_samples(levels: Seq<i16>, quant: int) -> Seq<u8> {
    plain_samples(coefficients(levels, quant, true))
}

/// The samples of a block that adds to a prediction.
pub open spec fn inter_samples(levels: Seq<i16>, quant: int, prediction: Seq<u8>) -> Seq<u8> {
    summed_samples(coefficients(levels, quant, false), prediction)
}

/// Reconstruct an INTRA block.
pub fn reconstruct_intra_block(block: &H263Block, quant: u8) -> (samples: [u8; 64])
    requires
        1 <= quant <= 31,
        block_layer::levels_in_range(block.coefficients@),
    ensures
        samples@ == intra_samples(block.coefficients@, quant as int),
{
    samples_of(&dequantise_block(block, quant, true))
}

/// Reconstruct a block that adds to a prediction.
pub fn reconstruct_inter_block_with_prediction(
    block: &H263Block,
    quant: u8,
    prediction: &[u8; 64],
) -> (samples: [u8; 64])
    requires
        1 <= quant <= 31,
        block_layer::levels_in_range(block.coefficients@),
    ensures
        samples@ == inter_samples(block.coefficients@, quant as int, prediction@),
{
    let c: [i32; 64] = dequantise_block(block, quant, false);
    let d: [i32; 64] = idct_8x8(&c);
    let mut samples: [u8; 64] = [0u8; 64];
    let ghost want = inter_samples(block.coefficients@, quant as int, prediction@);
    let mut k: usize = 0;
    while k < 64
        invariant
            k <= 64,
            want == summed_samples(as_ints(c@), prediction@),
            as_ints(d@) == inverse_transform(as_ints(c@)),
            forall|i: int| 0 <= i < 64 ==> -256 <= #[trigger] d@[i] <= 255,
            forall|i: int| 0 <= i < k ==> #[trigger] samples@[i] == want[i],
        decreases 64 - k,
    {
        assert(as_ints(d@)[k as int] == d@[k as int]);
        samples[k] = clamp(prediction[k] as i32 + d[k], 0, 255) as u8;
        k = k + 1;
    }
    assert(samples@ =~= want);
    samples
}

// ---- Advanced INTRA Coding ----

/// The scan that goes with a direction of prediction.
pub open spec fn scan_of(mode: IntraMode) -> Scan {
    match mode {
        IntraMode::DcOnly => Scan::Zigzag,
        IntraMode::Vertical => Scan::AlternateHorizontal,
        IntraMode::Horizontal => Scan::AlternateVertical,
    }
}

/// A coefficient before prediction.
pub open spec fn unpredicted(levels: Seq<i16>, mode: IntraMode, quant: int, p: int) -> int {
    2 * quant * levels[slot_of(scan_of(mode), p)]
}

/// The prediction of the first coefficient: from the blocks that the direction
/// names, and 1024 where they are missing.
pub open spec fn dc_prediction(
    mode: IntraMode,
    above: Option<Seq<i32>>,
    left: Option<Seq<i32>>,
) -> int {
    match (mode, above, left) {
        (IntraMode::DcOnly, Some(a), Some(b)) => (a[0] + b[0]) / 2,
        (IntraMode::DcOnly, Some(a), None) => a[0] as int,
        (IntraMode::DcOnly, None, Some(b)) => b[0] as int,
        (IntraMode::Vertical, Some(a), _) => a[0] as int,
        (IntraMode::Horizontal, _, Some(b)) => b[0] as int,
        _ => 1024,
    }
}

/// The prediction of the coefficient at position `p`, not the first: from the
/// block above in the first row, or from the block to the left in the first
/// column, as the direction says.
pub open spec fn ac_prediction(
    mode: IntraMode,
    above: Option<Seq<i32>>,
    left: Option<Seq<i32>>,
    p: int,
) -> int {
    match (mode, above, left) {
        (IntraMode::Vertical, Some(a), _) => if p < 8 {
            a[p] as int
        } else {
            0
        },
        (IntraMode::Horizontal, _, Some(b)) => if p % 8 == 0 {
            b[p] as int
        } else {
            0
        },
        _ => 0,
    }
}

/// The first coefficient is made odd and kept within 0 and 2047.
pub open spec fn odd_dc(v: int) -> int {
    clamped(
        if v % 2 == 0 {
            v + 1
        } else {
            v
        },
        0,
        2047,
    )
}

/// The coefficients of a block of Advanced INTRA Coding.
pub open spec fn aic_coefficients(
    levels: Seq<i16>,
    mode: IntraMode,
    quant: int,
    above: Option<Seq<i32>>,
    left: Option<Seq<i32>>,
) -> Seq<i32> {
    Seq::new(
        64,
        |p: int|
            if p == 0 {
                odd_dc(unpredicted(levels, mode, quant, 0) + dc_prediction(mode, above, left)) as i32
            } else {
                clamped(
                    unpredicted(levels, mode, quant, p) + ac_prediction(mode, above, left, p),
                    -2048,
                    2047,
                ) as i32
            },
    )
}

/// A first coefficient is always odd or 0, and never leaves its range.
pub proof fn first_coefficients_are_odd(v: int)
    ensures
        0 <= odd_dc(v) <= 2047,
        odd_dc(v) == 0 || odd_dc(v) % 2 == 1,
{
}

/// A neighbour's coefficients are within range.
pub open spec fn neighbour_in_range(n: Option<Seq<i32>>) -> bool {
    n matches Some(c) ==> coefficients_in_range(c)
}

/// Reconstruct the coefficients of a block of Advanced INTRA Coding.
#[verifier::spinoff_prover]
pub fn aic_intra_reconstruct_coefficients(
    block: &H263Block,
    mode: IntraMode,
    quant: u8,
    above: Neighbour<'_>,
    left: Neighbour<'_>,
) -> (c: [i32; 64])
    requires
        1 <= quant <= 31,
        block_layer::levels_in_range(block.coefficients@),
        neighbour_in_range(above.coefficients()),
        neighbour_in_range(left.coefficients()),
    ensures
        c@ == aic_coefficients(
            block.coefficients@,
            mode,
            quant as int,
            above.coefficients(),
            left.coefficients(),
        ),
        coefficients_in_range(c@),
{
    let ghost a = above.coefficients();
    let ghost b = left.coefficients();
    let ghost want = aic_coefficients(block.coefficients@, mode, quant as int, a, b);
    let scan: Scan = match mode {
        IntraMode::DcOnly => Scan::Zigzag,
        IntraMode::Vertical => Scan::AlternateHorizontal,
        IntraMode::Horizontal => Scan::AlternateVertical,
    };
    let mut c: [i32; 64] = [0i32; 64];
    let mut p: usize = 0;
    while p < 64
        invariant
            p <= 64,
            1 <= quant <= 31,
            block_layer::levels_in_range(block.coefficients@),
            scan == scan_of(mode),
            a == above.coefficients(),
            b == left.coefficients(),
            neighbour_in_range(a),
            neighbour_in_range(b),
            want == aic_coefficients(block.coefficients@, mode, quant as int, a, b),
            forall|i: int|
                0 <= i < 64 ==> -2048 <= #[trigger] c@[i] <= 2047 && (i < p ==> c@[i] == want[i]),
        decreases 64 - p,
    {
        let k: usize = slot(scan, p);
        let level: i32 = block.coefficients[k] as i32;
        let q2: i32 = 2 * quant as i32;
        assert(-62 * 2048 <= q2 * level <= 62 * 2048) by (nonlinear_arith)
            requires
                0 <= q2 <= 62,
                -2048 <= level <= 2048,
        ;
        let plain: i32 = q2 * level;
        if p == 0 {
            let dc: i32 = match (mode, &above, &left) {
                (IntraMode::DcOnly, Neighbour::Available(x), Neighbour::Available(y)) => {
                    let sum: i32 = x[0] + y[0];
                    ((sum + 4096) as u32 / 2) as i32 - 2048
                },
                (IntraMode::DcOnly, Neighbour::Available(x), Neighbour::Missing) => x[0],
                (IntraMode::DcOnly, Neighbour::Missing, Neighbour::Available(y)) => y[0],
                (IntraMode::Vertical, Neighbour::Available(x), _) => x[0],
                (IntraMode::Horizontal, _, Neighbour::Available(y)) => y[0],
                _ => 1024,
            };
            let sum: i32 = plain + dc;
            let odd: i32 = if (sum + 0x10_0000) as u32 % 2 == 0 {
                sum + 1
            } else {
                sum
            };
            c[p] = clamp(odd, 0, 2047);
        } else {
            let ac: i32 = match (mode, &above, &left) {
                (IntraMode::Vertical, Neighbour::Available(x), _) => {
                    if p < 8 {
                        x[p]
                    } else {
                        0
                    }
                },
                (IntraMode::Horizontal, _, Neighbour::Available(y)) => {
                    if p % 8 == 0 {
                        y[p]
                    } else {
                        0
                    }
                },
                _ => 0,
            };
            c[p] = clamp(plain + ac, -2048, 2047);
        }
        p = p + 1;
    }
    assert(c@ =~= want);
    c
}

} // verus!
