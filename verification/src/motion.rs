//! Motion vectors, their prediction, and prediction of blocks by them.
//!
//! Vectors count half pixels. A block is predicted from a reference plane at
//! the vector's offset, with two or four samples averaged where that falls
//! between pixels; beyond the plane's edges its outermost samples go on.

use crate::macroblock::Mvd;
use vstd::prelude::*;

verus! {

/// The rounding control of pictures that do not send one.
pub const RCONTROL_DEFAULT: u8 = 0;

/// A motion vector in half pixels, to the right and down.
#[derive(Clone, Copy, Debug, PartialEq, Eq, Structural)]
pub struct MotionVector {
    pub dx: i32,
    pub dy: i32,
}

/// The four luma blocks of a macroblock, row by row.
#[derive(Clone, Copy, Debug, PartialEq, Eq, Structural)]
pub enum LumaBlockIndex {
    B1,
    B2,
    B3,
    B4,
}

/// The vectors of a macroblock's four luma blocks.
pub type Mb4Mv = [MotionVector; 4];

/// The vector of a neighbouring block for overlapped prediction.
#[derive(Clone, Copy, Debug, PartialEq, Eq, Structural)]
pub enum RemoteMv {
    /// The zero vector.
    Zero,
    /// The current block's own vector.
    Current,
    /// The neighbour's vector.
    Vector(MotionVector),
}

/// The zero vector.
pub open spec fn zero_vector() -> MotionVector {
    MotionVector { dx: 0, dy: 0 }
}

impl Default for MotionVector {
    fn default() -> (mv: MotionVector)
        ensures
            mv == zero_vector(),
    {
        MotionVector { dx: 0, dy: 0 }
    }
}

impl MotionVector {
    /// No component is longer than decoding can make it.
    pub open spec fn in_range(self) -> bool {
        -64 <= self.dx <= 64 && -64 <= self.dy <= 64
    }

    /// The vector (`dx`, `dy`).
    pub fn new(dx: i32, dy: i32) -> (mv: MotionVector)
        ensures
            mv == (MotionVector { dx, dy }),
    {
        MotionVector { dx, dy }
    }
}

impl LumaBlockIndex {
    /// The block's place among the four.
    pub open spec fn spec_index(self) -> int {
        match self {
            LumaBlockIndex::B1 => 0,
            LumaBlockIndex::B2 => 1,
            LumaBlockIndex::B3 => 2,
            LumaBlockIndex::B4 => 3,
        }
    }

    /// The block's place among the four.
    pub fn index(self) -> (i: usize)
        ensures
            i == self.spec_index(),
            i < 4,
    {
        match self {
            LumaBlockIndex::B1 => 0,
            LumaBlockIndex::B2 => 1,
            LumaBlockIndex::B3 => 2,
            LumaBlockIndex::B4 => 3,
        }
    }
}

/// The middle one of three numbers.
pub open spec fn median(a: int, b: int, c: int) -> int {
    if a <= b {
        if b <= c {
            b
        } else if a <= c {
            c
        } else {
            a
        }
    } else if a <= c {
        a
    } else if b <= c {
        c
    } else {
        b
    }
}

/// The vector whose components are the medians of three vectors' components.
pub open spec fn median_vector(
    a: MotionVector,
    b: MotionVector,
    c: MotionVector,
) -> MotionVector {
    MotionVector {
        dx: median(a.dx as int, b.dx as int, c.dx as int) as i32,
        dy: median(a.dy as int, b.dy as int, c.dy as int) as i32,
    }
}

fn median3(a: i32, b: i32, c: i32) -> (m: i32)
    ensures
        m == median(a as int, b as int, c as int),
{
    if a <= b {
        if b <= c {
            b
        } else if a <= c {
            c
        } else {
            a
        }
    } else if a <= c {
        a
    } else if b <= c {
        c
    } else {
        b
    }
}

/// The predictor of a vector from its three candidates.
pub fn predict_mv_median(mv1: MotionVector, mv2: MotionVector, mv3: MotionVector) -> (mv:
    MotionVector)
    ensures
        mv == median_vector(mv1, mv2, mv3),
        mv1.in_range() && mv2.in_range() && mv3.in_range() ==> mv.in_range(),
{
    MotionVector {
        dx: median3(mv1.dx, mv2.dx, mv3.dx),
        dy: median3(mv1.dy, mv2.dy, mv3.dy),
    }
}

/// A median is one of the three numbers, lies between the other two, and does
/// not depend on their order.
pub proof fn median_is_in_the_middle(a: int, b: int, c: int)
    ensures
        median(a, b, c) == a || median(a, b, c) == b || median(a, b, c) == c,
        median(a, b, c) == median(b, a, c),
        median(a, b, c) == median(a, c, b),
        median(a, a, c) == a,
{
}

/// A vector component from its predictor and its difference: the sum, moved by
/// 64 where it leaves the range of -32 to 31.
pub open spec fn wrapped(predictor: int, diff: int) -> int {
    let v = predictor + diff;
    if v < -32 {
        v + 64
    } else if v > 31 {
        v - 64
    } else {
        v
    }
}

/// A vector component with unrestricted vectors: the sum, moved by 64 only
/// where the predictor is itself beyond the ordinary range and the sum beyond
/// the extended one.
pub open spec fn wrapped_unrestricted(predictor: int, diff: int) -> int {
    let v = predictor + diff;
    if predictor < -31 && v < -63 {
        v + 64
    } else if predictor > 32 && v > 63 {
        v - 64
    } else {
        v
    }
}

/// A vector from its predictor and its difference.
pub open spec fn reconstructed(umv: bool, predictor: MotionVector, mvd: Mvd) -> MotionVector {
    if umv {
        MotionVector {
            dx: wrapped_unrestricted(predictor.dx as int, mvd.dx_half as int) as i32,
            dy: wrapped_unrestricted(predictor.dy as int, mvd.dy_half as int) as i32,
        }
    } else {
        MotionVector {
            dx: wrapped(predictor.dx as int, mvd.dx_half as int) as i32,
            dy: wrapped(predictor.dy as int, mvd.dy_half as int) as i32,
        }
    }
}

/// The differences that a macroblock can send.
pub open spec fn mvd_in_range(mvd: Mvd) -> bool {
    -32 <= mvd.dx_half <= 31 && -32 <= mvd.dy_half <= 31
}

fn wrap(predictor: i32, diff: i8) -> (v: i32)
    requires
        -64 <= predictor <= 64,
        -32 <= diff <= 31,
    ensures
        v == wrapped(predictor as int, diff as int),
        -33 <= v <= 32,
{
    let v: i32 = predictor + diff as i32;
    if v < -32 {
        v + 64
    } else if v > 31 {
        v - 64
    } else {
        v
    }
}

fn wrap_unrestricted(predictor: i32, diff: i8) -> (v: i32)
    requires
        -64 <= predictor <= 64,
        -32 <= diff <= 31,
    ensures
        v == wrapped_unrestricted(predictor as int, diff as int),
        -64 <= v <= 64,
{
    let v: i32 = predictor + diff as i32;
    if predictor < -31 && v < -63 {
        v + 64
    } else if predictor > 32 && v > 63 {
        v - 64
    } else {
        v
    }
}

/// A vector from its predictor and its difference.
pub fn reconstruct_mv(predictor: MotionVector, mvd: Mvd) -> (mv: MotionVector)
    requires
        predictor.in_range(),
        mvd_in_range(mvd),
    ensures
        mv == reconstructed(false, predictor, mvd),
        mv.in_range(),
{
    MotionVector { dx: wrap(predictor.dx, mvd.dx_half), dy: wrap(predictor.dy, mvd.dy_half) }
}

/// A vector from its predictor and its difference, with unrestricted vectors.
pub fn reconstruct_mv_umv(predictor: MotionVector, mvd: Mvd) -> (mv: MotionVector)
    requires
        predictor.in_range(),
        mvd_in_range(mvd),
    ensures
        mv == reconstructed(true, predictor, mvd),
        mv.in_range(),
{
    MotionVector {
        dx: wrap_unrestricted(predictor.dx, mvd.dx_half),
        dy: wrap_unrestricted(predictor.dy, mvd.dy_half),
    }
}

/// Every vector that is in range can be sent against every predictor that is:
/// some difference leads to it.
pub proof fn every_vector_can_be_sent(predictor: int, v: int)
    requires
        -32 <= predictor <= 31,
        -32 <= v <= 31,
    ensures
        ({
            let d = if v - predictor < -32 {
                v - predictor + 64
            } else if v - predictor > 31 {
                v - predictor - 64
            } else {
                v - predictor
            };
            -32 <= d <= 31 && wrapped(predictor, d) == v
        }),
{
}

/// A chroma vector component from a luma one: half as long, with quarters moved
/// to the half position between them.
pub open spec fn chroma_component(v: int) -> int {
    let m = if v < 0 {
        -v
    } else {
        v
    };
    let c = 2 * (m / 4) + if m % 4 == 0 {
        0int
    } else {
        1
    };
    if v < 0 {
        -c
    } else {
        c
    }
}

/// A chroma vector component from the sum of four luma ones: an eighth of the
/// sum in pixels, its sixteenths moved to the nearest of the positions that
/// count more.
pub open spec fn chroma_component_of_sum(sum: int) -> int {
    let m = if sum < 0 {
        -sum
    } else {
        sum
    };
    let r = m % 16;
    let c = 2 * (m / 16) + if r <= 2 {
        0int
    } else if r <= 13 {
        1
    } else {
        2
    };
    if sum < 0 {
        -c
    } else {
        c
    }
}

/// The chroma vector of a macroblock with one luma vector.
pub open spec fn chroma_vector(mv: MotionVector) -> MotionVector {
    MotionVector {
        dx: chroma_component(mv.dx as int) as i32,
        dy: chroma_component(mv.dy as int) as i32,
    }
}

/// The chroma vector of a macroblock with four luma vectors.
pub open spec fn chroma_vector_of_four(mvs: Seq<MotionVector>) -> MotionVector {
    MotionVector {
        dx: chroma_component_of_sum(mvs[0].dx + mvs[1].dx + mvs[2].dx + mvs[3].dx) as i32,
        dy: chroma_component_of_sum(mvs[0].dy + mvs[1].dy + mvs[2].dy + mvs[3].dy) as i32,
    }
}

/// A macroblock with four equal vectors has the chroma vector of a macroblock
/// with that one.
pub proof fn four_equal_vectors_are_one(v: int)
    ensures
        chroma_component_of_sum(4 * v) == chroma_component(v),
{
}

fn halve(v: i32) -> (c: i32)
    requires
        -64 <= v <= 64,
    ensures
        c == chroma_component(v as int),
        -64 <= c <= 64,
{
    let m: u32 = if v < 0 {
        (-v) as u32
    } else {
        v as u32
    };
    let c: u32 = 2 * (m / 4) + if m % 4 == 0 {
        0
    } else {
        1
    };
    if v < 0 {
        -(c as i32)
    } else {
        c as i32
    }
}

fn halve_sum(sum: i32) -> (c: i32)
    requires
        -4096 <= sum <= 4096,
    ensures
        c == chroma_component_of_sum(sum as int),
        -1024 <= c <= 1024,
        -256 <= sum <= 256 ==> -64 <= c <= 64,
{
    let m: u32 = if sum < 0 {
        (-sum) as u32
    } else {
        sum as u32
    };
    let r: u32 = m % 16;
    let c: u32 = 2 * (m / 16) + if r <= 2 {
        0
    } else if r <= 13 {
        1
    } else {
        2
    };
    if sum < 0 {
        -(c as i32)
    } else {
        c as i32
    }
}

/// The chroma vector of a macroblock with one luma vector.
pub fn chroma_mv(mv: MotionVector) -> (c: MotionVector)
    requires
        mv.in_range(),
    ensures
        c == chroma_vector(mv),
        c.in_range(),
{
    MotionVector { dx: halve(mv.dx), dy: halve(mv.dy) }
}

/// The chroma vector of a macroblock with four luma vectors.
pub fn chroma_mv_4mv(mvs: &Mb4Mv) -> (c: MotionVector)
    requires
        forall|i: int|
            0 <= i < 4 ==> -1024 <= (#[trigger] mvs@[i]).dx <= 1024 && -1024 <= mvs@[i].dy <= 1024,
    ensures
        c == chroma_vector_of_four(mvs@),
        -1024 <= c.dx <= 1024,
        -1024 <= c.dy <= 1024,
        (forall|i: int| 0 <= i < 4 ==> (#[trigger] mvs@[i]).in_range()) ==> c.in_range(),
{
    let a: MotionVector = mvs[0];
    let b: MotionVector = mvs[1];
    let d: MotionVector = mvs[2];
    let e: MotionVector = mvs[3];
    MotionVector {
        dx: halve_sum(a.dx + b.dx + d.dx + e.dx),
        dy: halve_sum(a.dy + b.dy + d.dy + e.dy),
    }
}

/// `v` moved into the range from 0 to `n` - 1.
pub open spec fn kept_inside(v: int, n: int) -> int {
    if v < 0 {
        0
    } else if v >= n {
        n - 1
    } else {
        v
    }
}

/// The sample at column `x` and row `y` of a plane that goes on beyond its
/// edges.
pub open spec fn extended(p: Seq<u8>, width: int, height: int, x: int, y: int) -> int {
    p[kept_inside(y, height) * width + kept_inside(x, width)] as int
}

/// The value of a plane at a position in half pixels.
pub open spec fn at_half(
    p: Seq<u8>,
    width: int,
    height: int,
    x2: int,
    y2: int,
    rcontrol: int,
) -> int {
    let x = x2 / 2;
    let y = y2 / 2;
    let a = extended(p, width, height, x, y);
    let b = extended(p, width, height, x + 1, y);
    let c = extended(p, width, height, x, y + 1);
    let d = extended(p, width, height, x + 1, y + 1);
    if x2 % 2 == 0 && y2 % 2 == 0 {
        a
    } else if y2 % 2 == 0 {
        (a + b + 1 - rcontrol) / 2
    } else if x2 % 2 == 0 {
        (a + c + 1 - rcontrol) / 2
    } else {
        (a + b + c + d + 2 - rcontrol) / 4
    }
}

/// The prediction of the block at (`x`, `y`) by a vector.
pub open spec fn predicted_block(
    p: Seq<u8>,
    width: int,
    height: int,
    x: int,
    y: int,
    mv: MotionVector,
    rcontrol: int,
) -> Seq<u8> {
    Seq::new(
        64,
        |k: int|
            at_half(
                p,
                width,
                height,
                2 * (x + k % 8) + mv.dx,
                2 * (y + k / 8) + mv.dy,
                rcontrol,
            ) as u8,
    )
}

/// A plane to predict from.
#[derive(Clone, Copy)]
pub struct RefPlane<'a> {
    pub samples: &'a [u8],
    pub width: usize,
    pub height: usize,
}

impl<'a> RefPlane<'a> {
    /// The plane is not empty, of moderate size, and stored without gaps.
    pub open spec fn wf(self) -> bool {
        &&& 0 < self.width <= 0x1_0000
        &&& 0 < self.height <= 0x1_0000
        &&& self.samples@.len() == self.width * self.height
    }

    /// The plane of `width` times `height` samples.
    pub fn new(samples: &'a [u8], width: usize, height: usize) -> (r: RefPlane<'a>)
        requires
            0 < width <= 0x1_0000,
            0 < height <= 0x1_0000,
            samples@.len() == width * height,
        ensures
            r.wf(),
            r.samples@ == samples@,
            r.width == width,
            r.height == height,
    {
        RefPlane { samples, width, height }
    }

    /// The sample at column `x` and row `y`, or the nearest one inside.
    fn get(&self, x: i32, y: i32) -> (s: u32)
        requires
            self.wf(),
        ensures
            s == extended(self.samples@, self.width as int, self.height as int, x as int, y as int),
            s <= 255,
    {
        let cx: usize = if x < 0 {
            0
        } else if x as usize >= self.width {
            self.width - 1
        } else {
            x as usize
        };
        let cy: usize = if y < 0 {
            0
        } else if y as usize >= self.height {
            self.height - 1
        } else {
            y as usize
        };
        proof {
            crate::scal_upsample::lemma_position(
                cy as int,
                cx as int,
                self.width as int,
                self.height as int,
            );
        }
        assert(self.samples.len() == self.samples@.len());
        self.samples[cy * self.width + cx] as u32
    }

    /// The value at a position in half pixels.
    fn get_half(&self, x2: i32, y2: i32, rcontrol: u8) -> (s: u8)
        requires
            self.wf(),
            rcontrol <= 1,
            -0x10_0000 <= x2 <= 0x10_0000,
            -0x10_0000 <= y2 <= 0x10_0000,
        ensures
            s == at_half(
                self.samples@,
                self.width as int,
                self.height as int,
                x2 as int,
                y2 as int,
                rcontrol as int,
            ),
    {
        let px: u32 = (x2 + 0x10_0000) as u32;
        let py: u32 = (y2 + 0x10_0000) as u32;
        let x: i32 = (px / 2) as i32 - 0x8_0000;
        let y: i32 = (py / 2) as i32 - 0x8_0000;
        let rc: u32 = rcontrol as u32;
        let a: u32 = self.get(x, y);
        if px % 2 == 0 && py % 2 == 0 {
            a as u8
        } else if py % 2 == 0 {
            ((a + self.get(x + 1, y) + 1 - rc) / 2) as u8
        } else if px % 2 == 0 {
            ((a + self.get(x, y + 1) + 1 - rc) / 2) as u8
        } else {
            ((a + self.get(x + 1, y) + self.get(x, y + 1) + self.get(x + 1, y + 1) + 2 - rc) / 4) as u8
        }
    }
}

/// Predict the block at (`x`, `y`) by a vector.
pub fn motion_compensate_block(
    plane: &RefPlane<'_>,
    x: usize,
    y: usize,
    mv: MotionVector,
    rcontrol: u8,
) -> (block: [u8; 64])
    requires
        plane.wf(),
        x <= 0x1_0000,
        y <= 0x1_0000,
        -0x1000 <= mv.dx <= 0x1000,
        -0x1000 <= mv.dy <= 0x1000,
        rcontrol <= 1,
    ensures
        block@ == predicted_block(
            plane.samples@,
            plane.width as int,
            plane.height as int,
            x as int,
            y as int,
            mv,
            rcontrol as int,
        ),
{
    let mut block: [u8; 64] = [0u8; 64];
    let ghost want = predicted_block(
        plane.samples@,
        plane.width as int,
        plane.height as int,
        x as int,
        y as int,
        mv,
        rcontrol as int,
    );
    let mut k: usize = 0;
    while k < 64
        invariant
            k <= 64,
            plane.wf(),
            x <= 0x1_0000,
            y <= 0x1_0000,
            -0x1000 <= mv.dx <= 0x1000,
            -0x1000 <= mv.dy <= 0x1000,
            rcontrol <= 1,
            want == predicted_block(
                plane.samples@,
                plane.width as int,
                plane.height as int,
                x as int,
                y as int,
                mv,
                rcontrol as int,
            ),
            forall|i: int| 0 <= i < k ==> #[trigger] block@[i] == want[i],
        decreases 64 - k,
    {
        let x2: i32 = 2 * (x as i32 + (k % 8) as i32) + mv.dx;
        let y2: i32 = 2 * (y as i32 + (k / 8) as i32) + mv.dy;
        block[k] = plane.get_half(x2, y2, rcontrol);
        k = k + 1;
    }
    assert(block@ =~= want);
    block
}

/// The weight of a block's own vector at row `i` and column `j` of the block.
pub open spec fn own_weight(i: int, j: int) -> int {
    if (i == 0 || i == 7) && (j == 0 || j == 7) {
        4
    } else if 2 <= i <= 5 && 2 <= j <= 5 {
        6
    } else {
        5
    }
}

/// The weight of the vector of the block above or below.
pub open spec fn vertical_weight(i: int, j: int) -> int {
    if i == 0 || i == 7 || (i == 1 || i == 6) && 2 <= j <= 5 {
        2
    } else {
        1
    }
}

/// The weight of the vector of the block to the left or right.
pub open spec fn horizontal_weight(i: int, j: int) -> int {
    if j == 0 || j == 7 || (j == 1 || j == 6) && 1 <= i <= 6 {
        2
    } else {
        1
    }
}

/// The weights add up to eight everywhere, so that equal predictions are kept.
pub proof fn overlap_weights_add_up(i: int, j: int)
    requires
        0 <= i < 8,
        0 <= j < 8,
    ensures
        own_weight(i, j) + vertical_weight(i, j) + horizontal_weight(i, j) == 8,
{
}

/// The vector that a remote vector stands for.
pub open spec fn resolved(remote: RemoteMv, own: MotionVector) -> MotionVector {
    match remote {
        RemoteMv::Zero => zero_vector(),
        RemoteMv::Current => own,
        RemoteMv::Vector(mv) => mv,
    }
}

/// The weighted mean of three predictions of a block; `above` and `below` are
/// by the vectors of the blocks above and below, `left` and `right` by those
/// beside. Each counts in the half of the block that is nearer to its own.
pub open spec fn overlapped(
    own: Seq<u8>,
    above: Seq<u8>,
    below: Seq<u8>,
    left: Seq<u8>,
    right: Seq<u8>,
) -> Seq<u8> {
    Seq::new(
        64,
        |k: int|
            {
                let i = k / 8;
                let j = k % 8;
                let v = if i < 4 {
                    above[k]
                } else {
                    below[k]
                };
                let h = if j < 4 {
                    left[k]
                } else {
                    right[k]
                };
                ((own_weight(i, j) * own[k] + vertical_weight(i, j) * v + horizontal_weight(i, j)
                    * h + 4) / 8) as u8
            },
    )
}

/// The overlapped prediction of the block at (`x`, `y`).
pub open spec fn overlapped_block(
    p: Seq<u8>,
    width: int,
    height: int,
    x: int,
    y: int,
    own: MotionVector,
    above: RemoteMv,
    below: RemoteMv,
    left: RemoteMv,
    right: RemoteMv,
    rcontrol: int,
) -> Seq<u8> {
    overlapped(
        predicted_block(p, width, height, x, y, own, rcontrol),
        predicted_block(p, width, height, x, y, resolved(above, own), rcontrol),
        predicted_block(p, width, height, x, y, resolved(below, own), rcontrol),
        predicted_block(p, width, height, x, y, resolved(left, own), rcontrol),
        predicted_block(p, width, height, x, y, resolved(right, own), rcontrol),
    )
}

/// Where all five vectors are one, overlapped prediction is ordinary
/// prediction.
pub proof fn overlap_of_equal_predictions(own: Seq<u8>)
    requires
        own.len() == 64,
    ensures
        overlapped(own, own, own, own, own) == own,
{
    assert forall|k: int| 0 <= k < 64 implies overlapped(own, own, own, own, own)[k] == own[k] by {
        let i = k / 8;
        let j = k % 8;
        let s = own[k] as int;
        overlap_weights_add_up(i, j);
        assert(own_weight(i, j) * s + vertical_weight(i, j) * s + horizontal_weight(i, j) * s == 8
            * s) by (nonlinear_arith)
            requires
                own_weight(i, j) + vertical_weight(i, j) + horizontal_weight(i, j) == 8,
        ;
    }
    assert(overlapped(own, own, own, own, own) =~= own);
}

/// The vector that a remote vector stands for.
fn resolve(remote: RemoteMv, own: MotionVector) -> (mv: MotionVector)
    ensures
        mv == resolved(remote, own),
{
    match remote {
        RemoteMv::Zero => MotionVector { dx: 0, dy: 0 },
        RemoteMv::Current => own,
        RemoteMv::Vector(mv) => mv,
    }
}

/// The weighted mean of three samples.
fn weigh(i: usize, j: usize, own: u8, v: u8, h: u8) -> (s: u8)
    requires
        i < 8,
        j < 8,
    ensures
        s == ((own_weight(i as int, j as int) * own + vertical_weight(i as int, j as int) * v
            + horizontal_weight(i as int, j as int) * h + 4) / 8) as u8,
{
    let a: u32 = if (i == 0 || i == 7) && (j == 0 || j == 7) {
        4
    } else if 2 <= i && i <= 5 && 2 <= j && j <= 5 {
        6
    } else {
        5
    };
    let b: u32 = if i == 0 || i == 7 || (i == 1 || i == 6) && 2 <= j && j <= 5 {
        2
    } else {
        1
    };
    let c: u32 = if j == 0 || j == 7 || (j == 1 || j == 6) && 1 <= i && i <= 6 {
        2
    } else {
        1
    };
    assert(a * own <= 6 * 255 && b * v <= 2 * 255 && c * h <= 2 * 255) by (nonlinear_arith)
        requires
            a <= 6,
            b <= 2,
            c <= 2,
            own <= 255,
            v <= 255,
            h <= 255,
    ;
    assert(a * own + b * v + c * h <= 8 * 255) by (nonlinear_arith)
        requires
            a + b + c == 8,
            own <= 255,
            v <= 255,
            h <= 255,
    ;
    ((a * own as u32 + b * v as u32 + c * h as u32 + 4) / 8) as u8
}

/// Predict the block at (`x`, `y`) by its own vector and those of the blocks
/// around it.
pub fn obmc_predict_block(
    plane: &RefPlane<'_>,
    x: usize,
    y: usize,
    own: MotionVector,
    above: RemoteMv,
    below: RemoteMv,
    left: RemoteMv,
    right: RemoteMv,
    rcontrol: u8,
) -> (block: [u8; 64])
    requires
        plane.wf(),
        x <= 0x1_0000,
        y <= 0x1_0000,
        rcontrol <= 1,
        own.in_range(),
        resolved(above, own).in_range(),
        resolved(below, own).in_range(),
        resolved(left, own).in_range(),
        resolved(right, own).in_range(),
    ensures
        block@ == overlapped_block(
            plane.samples@,
            plane.width as int,
            plane.height as int,
            x as int,
            y as int,
            own,
            above,
            below,
            left,
            right,
            rcontrol as int,
        ),
{
    let q: [u8; 64] = motion_compensate_block(plane, x, y, own, rcontrol);
    let t: [u8; 64] = motion_compensate_block(plane, x, y, resolve(above, own), rcontrol);
    let b: [u8; 64] = motion_compensate_block(plane, x, y, resolve(below, own), rcontrol);
    let l: [u8; 64] = motion_compensate_block(plane, x, y, resolve(left, own), rcontrol);
    let r: [u8; 64] = motion_compensate_block(plane, x, y, resolve(right, own), rcontrol);
    let ghost want = overlapped(q@, t@, b@, l@, r@);
    let mut block: [u8; 64] = [0u8; 64];
    let mut k: usize = 0;
    while k < 64
        invariant
            k <= 64,
            want == overlapped(q@, t@, b@, l@, r@),
            forall|n: int| 0 <= n < k ==> #[trigger] block@[n] == want[n],
        decreases 64 - k,
    {
        let i: usize = k / 8;
        let j: usize = k % 8;
        let v: u8 = if i < 4 {
            t[k]
        } else {
            b[k]
        };
        let h: u8 = if j < 4 {
            l[k]
        } else {
            r[k]
        };
        block[k] = weigh(i, j, q[k], v, h);
        k = k + 1;
    }
    assert(block@ =~= want);
    block
}

/// The vectors around a macroblock; `None` where a macroblock is missing or has
/// no vectors.
#[derive(Clone, Copy, Debug, PartialEq, Eq)]
pub struct Mb4MvNeighbourhood {
    pub current: Mb4Mv,
    pub left: Option<Mb4Mv>,
    pub above: Option<Mb4Mv>,
    pub above_right: Option<Mb4Mv>,
    pub right: Option<Mb4Mv>,
}

/// Optional vectors as a sequence.
pub open spec fn vectors_of(v: Option<Mb4Mv>) -> Option<Seq<MotionVector>> {
    match v {
        Some(a) => Some(a@),
        None => None,
    }
}

/// The vectors around a macroblock as sequences.
pub struct Around {
    pub current: Seq<MotionVector>,
    pub left: Option<Seq<MotionVector>>,
    pub above: Option<Seq<MotionVector>>,
    pub above_right: Option<Seq<MotionVector>>,
    pub right: Option<Seq<MotionVector>>,
}

impl View for Mb4MvNeighbourhood {
    type V = Around;

    open spec fn view(&self) -> Around {
        Around {
            current: self.current@,
            left: vectors_of(self.left),
            above: vectors_of(self.above),
            above_right: vectors_of(self.above_right),
            right: vectors_of(self.right),
        }
    }
}

/// A vector of a neighbour, or zero.
pub open spec fn vector_or_zero(mvs: Option<Seq<MotionVector>>, i: int) -> MotionVector {
    match mvs {
        Some(v) => v[i],
        None => zero_vector(),
    }
}

/// The three candidates for a block's predictor: the blocks to its left, above
/// it, and above it to the right, or what stands in for one that is not decoded
/// yet.
pub open spec fn candidates(blk: LumaBlockIndex, n: Around) -> (
    MotionVector,
    MotionVector,
    MotionVector,
) {
    match blk {
        LumaBlockIndex::B1 => (
            vector_or_zero(n.left, 1),
            vector_or_zero(n.above, 2),
            vector_or_zero(n.above_right, 2),
        ),
        LumaBlockIndex::B2 => (
            n.current[0],
            vector_or_zero(n.above, 3),
            vector_or_zero(n.above_right, 2),
        ),
        LumaBlockIndex::B3 => (vector_or_zero(n.left, 3), n.current[0], n.current[1]),
        LumaBlockIndex::B4 => (n.current[2], n.current[1], vector_or_zero(n.right, 0)),
    }
}

fn take_vector(mvs: &Option<Mb4Mv>, b: LumaBlockIndex) -> (mv: MotionVector)
    ensures
        mv == vector_or_zero(vectors_of(*mvs), b.spec_index()),
{
    match mvs {
        Some(v) => v[b.index()],
        None => MotionVector { dx: 0, dy: 0 },
    }
}

/// The three candidates for a block's predictor.
pub fn select_4mv_candidates(blk: LumaBlockIndex, n: &Mb4MvNeighbourhood) -> (c: (
    MotionVector,
    MotionVector,
    MotionVector,
))
    ensures
        c == candidates(blk, n@),
{
    match blk {
        LumaBlockIndex::B1 => (
            take_vector(&n.left, LumaBlockIndex::B2),
            take_vector(&n.above, LumaBlockIndex::B3),
            take_vector(&n.above_right, LumaBlockIndex::B3),
        ),
        LumaBlockIndex::B2 => (
            n.current[0],
            take_vector(&n.above, LumaBlockIndex::B4),
            take_vector(&n.above_right, LumaBlockIndex::B3),
        ),
        LumaBlockIndex::B3 => (
            take_vector(&n.left, LumaBlockIndex::B4),
            n.current[0],
            n.current[1],
        ),
        LumaBlockIndex::B4 => (
            n.current[2],
            n.current[1],
            take_vector(&n.right, LumaBlockIndex::B1),
        ),
    }
}

} // verus!
