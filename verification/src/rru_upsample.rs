//! Upsampling of the prediction error in the Reduced Resolution Update mode.
//!
//! That mode codes blocks of eight by eight samples that stand for sixteen by
//! sixteen pixels. Each block is doubled by itself, with no sample from beyond
//! its edges.

use crate::upsample;
use crate::upsample::{far_index, interpolate_four, interpolate_two};
use vstd::prelude::*;

verus! {

/// The side of a reduced block.
pub const RRU_IN_DIM: usize = 8;

/// The side of an upsampled block.
pub const RRU_OUT_DIM: usize = 16;

/// The samples of a reduced block.
pub const RRU_IN_LEN: usize = 64;

/// The samples of an upsampled block.
pub const RRU_OUT_LEN: usize = 256;

/// The samples of a reduced block by row and column.
pub open spec fn reduced(input: Seq<i16>) -> spec_fn(int, int) -> int {
    |i: int, j: int| input[8 * i + j] as int
}

/// Double a reduced block of prediction errors. Both blocks are stored row by
/// row.
pub fn upsample_prediction_error(input: &[i16; 64]) -> (out: [i16; 256])
    ensures
        forall|y: int, x: int|
            #![trigger out@[16 * y + x]]
            0 <= y < 16 && 0 <= x < 16 ==> out@[16 * y + x] == upsample::grid_position(
                reduced(input@),
                8,
                8,
                y,
                x,
            ),
{
    let mut out: [i16; 256] = [0i16; 256];
    let mut k: usize = 0;
    let ghost s = reduced(input@);
    while k < 256
        invariant
            k <= 256,
            s == reduced(input@),
            forall|q: int|
                0 <= q < k ==> #[trigger] out@[q] == upsample::grid_position(s, 8, 8, q / 16, q % 16),
        decreases 256 - k,
    {
        let y: usize = k / 16;
        let x: usize = k % 16;
        let i: usize = y / 2;
        let j: usize = x / 2;
        let near: i32 = input[8 * i + j] as i32;
        let edge_row: bool = y == 0 || y == 15;
        let edge_column: bool = x == 0 || x == 15;
        let v: i32 = if edge_row && edge_column {
            near
        } else if edge_row {
            let fj: usize = far_index(x, 8);
            interpolate_two(near, input[8 * i + fj] as i32)
        } else if edge_column {
            let fi: usize = far_index(y, 8);
            interpolate_two(near, input[8 * fi + j] as i32)
        } else {
            let fi: usize = far_index(y, 8);
            let fj: usize = far_index(x, 8);
            interpolate_four(
                near,
                input[8 * i + fj] as i32,
                input[8 * fi + j] as i32,
                input[8 * fi + fj] as i32,
            )
        };
        out[k] = v as i16;
        k = k + 1;
    }
    assert forall|y: int, x: int|
        #![trigger out@[16 * y + x]]
        0 <= y < 16 && 0 <= x < 16 implies out@[16 * y + x] == upsample::grid_position(
        s,
        8,
        8,
        y,
        x,
    ) by {
        let q = 16 * y + x;
        assert(q / 16 == y && q % 16 == x);
    }
    out
}

} // verus!
