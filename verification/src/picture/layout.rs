//! Picture sizes and their groups of blocks.

use crate::picture_header::H263SourceFormat;
use vstd::prelude::*;

verus! {

/// A picture's size and its division into groups of blocks.
#[derive(Debug, Clone, Copy, PartialEq, Eq, Structural)]
pub struct PictureLayout {
    /// Luma width in pixels.
    pub luma_width: u32,
    /// Luma height in lines.
    pub luma_height: u32,
    /// Groups of blocks, from top to bottom.
    pub num_gobs: u32,
    /// Macroblock rows of a group; the last group may have fewer.
    pub mb_rows_per_gob: u32,
}

/// The macroblock rows of a group in a picture of custom height.
pub open spec fn gob_rows_for_height(luma_height: int) -> int {
    if luma_height <= 400 {
        1
    } else if luma_height <= 800 {
        2
    } else {
        4
    }
}

/// The layout of a picture of custom size, where both sides are whole
/// macroblocks and within their limits.
pub open spec fn custom_layout(luma_width: int, luma_height: int) -> Option<PictureLayout> {
    let k = gob_rows_for_height(luma_height);
    if 4 <= luma_width <= 2048 && luma_width % 16 == 0 && 4 <= luma_height <= 1152 && luma_height
        % 16 == 0 {
        Some(
            PictureLayout {
                luma_width: luma_width as u32,
                luma_height: luma_height as u32,
                num_gobs: ((luma_height + 16 * k - 1) / (16 * k)) as u32,
                mb_rows_per_gob: k as u32,
            },
        )
    } else {
        None
    }
}

/// The layout of a picture of standard size; the reserved code has none.
pub open spec fn standard_layout(format: H263SourceFormat) -> Option<PictureLayout> {
    match format.dimensions() {
        Some((w, h)) => Some(
            PictureLayout {
                luma_width: w,
                luma_height: h,
                num_gobs: format.gobs().unwrap_or(0),
                mb_rows_per_gob: format.gob_rows().unwrap_or(0),
            },
        ),
        None => None,
    }
}

impl PictureLayout {
    /// The picture consists of whole macroblocks, is of moderate size, and its
    /// groups cover its macroblock rows, the last one perhaps in part.
    pub open spec fn wf(self) -> bool {
        &&& 16 <= self.luma_width <= 2048
        &&& 16 <= self.luma_height <= 1152
        &&& self.luma_width % 16 == 0
        &&& self.luma_height % 16 == 0
        &&& 1 <= self.mb_rows_per_gob <= 4
        &&& self.num_gobs * self.mb_rows_per_gob >= self.luma_height / 16
        &&& (self.num_gobs - 1) * self.mb_rows_per_gob < self.luma_height / 16
        &&& 1 <= self.num_gobs <= 72
    }

    /// The layout of a picture of standard size.
    pub fn for_source_format(format: H263SourceFormat) -> (l: Option<PictureLayout>)
        ensures
            l == standard_layout(format),
            l matches Some(layout) ==> layout.wf(),
    {
        let (luma_width, luma_height): (u32, u32) = format.luma_dimensions()?;
        let num_gobs: u32 = format.num_gobs()?;
        let mb_rows_per_gob: u32 = format.mb_rows_per_gob()?;
        Some(PictureLayout { luma_width, luma_height, num_gobs, mb_rows_per_gob })
    }

    /// The layout of a picture of custom size.
    pub fn for_custom_dimensions(luma_width: u32, luma_height: u32) -> (l: Option<PictureLayout>)
        ensures
            l == custom_layout(luma_width as int, luma_height as int),
            l matches Some(layout) ==> layout.wf(),
    {
        if luma_width < 4 || luma_width > 2048 || luma_width % 16 != 0 {
            return None;
        }
        if luma_height < 4 || luma_height > 1152 || luma_height % 16 != 0 {
            return None;
        }
        let k: u32 = if luma_height <= 400 {
            1
        } else if luma_height <= 800 {
            2
        } else {
            4
        };
        let gob_lines: u32 = k * 16;
        let num_gobs: u32 = (luma_height + gob_lines - 1) / gob_lines;
        proof {
            let n = num_gobs as int;
            assert(n * k == k * n && (n - 1) * k == k * n - k) by (nonlinear_arith);
            assert(k * n == if k == 1 {
                n
            } else if k == 2 {
                2 * n
            } else {
                4 * n
            }) by (nonlinear_arith)
                requires
                    k == 1 || k == 2 || k == 4,
            ;
        }
        Some(PictureLayout { luma_width, luma_height, num_gobs, mb_rows_per_gob: k })
    }
}

/// Every group of a picture holds at least one macroblock row, and together
/// they hold all of them.
pub proof fn groups_cover_the_picture(layout: PictureLayout, row: int)
    requires
        layout.wf(),
        0 <= row < layout.luma_height / 16,
    ensures
        0 <= row / layout.mb_rows_per_gob as int,
        row / (layout.mb_rows_per_gob as int) < layout.num_gobs,
{
    let k = layout.mb_rows_per_gob as int;
    let n = layout.num_gobs as int;
    assert(k * n == n * k) by (nonlinear_arith);
    vstd::arithmetic::div_mod::lemma_multiply_divide_lt(row, k, n);
    vstd::arithmetic::div_mod::lemma_div_pos_is_pos(row, k);
}

} // verus!
