//! Frames and the blocks that they are put together from.

use crate::scal_upsample;
use vstd::prelude::*;

verus! {

/// A decoded frame: a luma plane, and two chroma planes of half its width and
/// height, stored row by row.
#[derive(Debug, Clone, PartialEq, Eq)]
pub struct YuvFrame {
    pub y: Vec<u8>,
    pub cb: Vec<u8>,
    pub cr: Vec<u8>,
    pub luma_width: usize,
    pub luma_height: usize,
}

/// A frame's samples and size.
pub struct Planes {
    pub y: Seq<u8>,
    pub cb: Seq<u8>,
    pub cr: Seq<u8>,
    pub width: int,
    pub height: int,
}

impl Planes {
    /// The planes are stored without gaps.
    pub open spec fn stored(self) -> bool {
        &&& self.y.len() == self.width * self.height
        &&& self.cb.len() == (self.width / 2) * (self.height / 2)
        &&& self.cr.len() == (self.width / 2) * (self.height / 2)
    }

    /// The planes have the samples that their sizes ask for, in whole
    /// macroblocks.
    pub open spec fn wf(self) -> bool {
        &&& 0 < self.width <= 0x1_0000
        &&& 0 < self.height <= 0x1_0000
        &&& self.width % 16 == 0
        &&& self.height % 16 == 0
        &&& self.y.len() == self.width * self.height
        &&& self.cb.len() == (self.width / 2) * (self.height / 2)
        &&& self.cr.len() == (self.width / 2) * (self.height / 2)
    }
}

impl View for YuvFrame {
    type V = Planes;

    open spec fn view(&self) -> Planes {
        Planes {
            y: self.y@,
            cb: self.cb@,
            cr: self.cr@,
            width: self.luma_width as int,
            height: self.luma_height as int,
        }
    }
}

/// `n` samples of value `s`.
pub open spec fn uniform(s: u8, n: int) -> Seq<u8> {
    Seq::new(n as nat, |i: int| s)
}

/// A frame whose samples all have one value.
pub open spec fn uniform_planes(s: u8, width: int, height: int) -> Planes {
    Planes {
        y: uniform(s, width * height),
        cb: uniform(s, (width / 2) * (height / 2)),
        cr: uniform(s, (width / 2) * (height / 2)),
        width,
        height,
    }
}

/// `n` samples of value `s`.
fn filled(s: u8, n: usize) -> (v: Vec<u8>)
    ensures
        v@ == uniform(s, n as int),
{
    let mut v: Vec<u8> = Vec::new();
    let mut i: usize = 0;
    while i < n
        invariant
            i <= n,
            v@ == uniform(s, i as int),
        decreases n - i,
    {
        v.push(s);
        i = i + 1;
        assert(v@ =~= uniform(s, i as int));
    }
    v
}

impl YuvFrame {
    /// The width of the chroma planes.
    pub fn chroma_width(&self) -> (w: usize)
        ensures
            w == self.luma_width / 2,
    {
        self.luma_width / 2
    }

    /// The height of the chroma planes.
    pub fn chroma_height(&self) -> (h: usize)
        ensures
            h == self.luma_height / 2,
    {
        self.luma_height / 2
    }

    /// A frame whose samples all have one value.
    pub fn uniform(s: u8, luma_width: usize, luma_height: usize) -> (f: YuvFrame)
        requires
            luma_width * luma_height <= usize::MAX,
        ensures
            f@ == uniform_planes(s, luma_width as int, luma_height as int),
    {
        let cw: usize = luma_width / 2;
        let ch: usize = luma_height / 2;
        assert(cw * ch <= luma_width * luma_height) by (nonlinear_arith)
            requires
                0 <= cw <= luma_width,
                0 <= ch <= luma_height,
        ;
        YuvFrame {
            y: filled(s, luma_width * luma_height),
            cb: filled(s, cw * ch),
            cr: filled(s, cw * ch),
            luma_width,
            luma_height,
        }
    }

    /// A frame of medium grey.
    pub fn grey(luma_width: usize, luma_height: usize) -> (f: YuvFrame)
        requires
            luma_width * luma_height <= usize::MAX,
        ensures
            f@ == uniform_planes(128, luma_width as int, luma_height as int),
    {
        YuvFrame::uniform(128, luma_width, luma_height)
    }
}

/// What a caller can ask of a decoder beyond what the stream says.
#[derive(Debug, Clone, Copy, PartialEq, Eq, Structural)]
pub struct DecodeOptions {
    /// Run the deblocking filter.
    pub deblock: bool,
    /// INTRA macroblocks are coded with Advanced INTRA Coding.
    pub aic: bool,
}

impl Default for DecodeOptions {
    fn default() -> (o: DecodeOptions)
        ensures
            o == (DecodeOptions { deblock: false, aic: false }),
    {
        DecodeOptions { deblock: false, aic: false }
    }
}

/// A plane with a block of eight by eight samples put at (`x0`, `y0`).
pub open spec fn blitted(
    plane: Seq<u8>,
    stride: int,
    x0: int,
    y0: int,
    block: Seq<u8>,
) -> Seq<u8> {
    Seq::new(
        plane.len(),
        |k: int|
            {
                let x = k % stride - x0;
                let y = k / stride - y0;
                if 0 <= x < 8 && 0 <= y < 8 {
                    block[8 * y + x]
                } else {
                    plane[k]
                }
            },
    )
}

/// Put a block of eight by eight samples at (`x0`, `y0`) of a plane.
pub fn blit_block(plane: &mut [u8], stride: usize, x0: usize, y0: usize, block: &[u8; 64])
    requires
        x0 + 8 <= stride,
        (y0 + 8) * stride <= old(plane)@.len(),
    ensures
        final(plane)@ == blitted(
            old(plane)@,
            stride as int,
            x0 as int,
            y0 as int,
            block@,
        ),
{
    let ghost before = plane@;
    assert(plane.len() == plane@.len());
    let mut k: usize = 0;
    while k < 64
        invariant
            k <= 64,
            x0 + 8 <= stride,
            plane@.len() == before.len(),
            (y0 + 8) * stride <= before.len() <= usize::MAX,
            forall|i: int|
                0 <= i < before.len() ==> #[trigger] plane@[i] == ({
                    let x = i % stride as int - x0;
                    let y = i / stride as int - y0;
                    if 0 <= x < 8 && 0 <= y < 8 && 8 * y + x < k {
                        block@[8 * y + x]
                    } else {
                        before[i]
                    }
                }),
        decreases 64 - k,
    {
        let y: usize = k / 8;
        let x: usize = k % 8;
        proof {
            lemma_inside(x0 + x, y0 + y, stride as int, y0 + 8, before.len() as int);
            lemma_rows(y0 + y, y0 + 8, stride as int);
        }
        let at: usize = (y0 + y) * stride + (x0 + x);
        plane[at] = block[k];
        proof {
            assert forall|i: int| 0 <= i < before.len() implies #[trigger] plane@[i] == ({
                let cx = i % stride as int - x0;
                let cy = i / stride as int - y0;
                if 0 <= cx < 8 && 0 <= cy < 8 && 8 * cy + cx < k + 1 {
                    block@[8 * cy + cx]
                } else {
                    before[i]
                }
            }) by {
                let cx = i % stride as int - x0;
                let cy = i / stride as int - y0;
                if i != at && 0 <= cx < 8 && 0 <= cy < 8 && 8 * cy + cx == k {
                    vstd::arithmetic::div_mod::lemma_fundamental_div_mod(i, stride as int);
                    assert(cy == y && cx == x);
                    assert(stride * (y0 + y) == (y0 + y) * stride) by (nonlinear_arith);
                    assert(false);
                }
            }
        }
        k = k + 1;
    }
    assert(plane@ =~= blitted(before, stride as int, x0 as int, y0 as int, block@));
}

/// A position in a row is inside the rows up to `rows`.
proof fn lemma_inside(x: int, y: int, stride: int, rows: int, len: int)
    requires
        0 <= x < stride,
        0 <= y < rows,
        rows * stride <= len,
    ensures
        0 <= y * stride + x < len,
        (y * stride + x) / stride == y,
        (y * stride + x) % stride == x,
{
    scal_upsample::lemma_position(y, x, stride, rows);
    assert(stride * rows == rows * stride) by (nonlinear_arith);
}

/// A row starts before a later one.
proof fn lemma_rows(y: int, rows: int, stride: int)
    requires
        0 <= y <= rows,
        0 <= stride,
    ensures
        0 <= y * stride <= rows * stride,
{
    assert(0 <= y * stride <= rows * stride) by (nonlinear_arith)
        requires
            0 <= y <= rows,
            0 <= stride,
    ;
}

/// The pixel at which luma block `blk` of the macroblock at (`mb_x`, `mb_y`)
/// starts.
pub fn luma_block_origin(mb_x: usize, mb_y: usize, blk: usize) -> (p: (usize, usize))
    requires
        blk < 4,
        mb_x + 8 <= usize::MAX,
        mb_y + 8 <= usize::MAX,
    ensures
        p.0 == mb_x + 8 * (blk % 2),
        p.1 == mb_y + 8 * (blk / 2),
{
    (mb_x + 8 * (blk % 2), mb_y + 8 * (blk / 2))
}

} // verus!
