//! The blocks of a picture as Advanced INTRA Coding sees them.
//!
//! A block is predicted from the coefficients of the blocks above it and to its
//! left. Those that are outside the picture, in another segment of it or not
//! INTRA do not count.

use crate::residual;
use crate::scal_upsample;
use vstd::prelude::*;

verus! {

/// Whether a block is an INTRA block, and the segment that it belongs to.
#[derive(Debug, Clone, Copy, PartialEq, Eq, Structural)]
pub struct AicBlockMeta {
    pub intra: bool,
    pub segment: u32,
}

impl AicBlockMeta {
    /// What stands for a block outside the picture or not yet decoded.
    pub fn outside() -> (m: AicBlockMeta)
        ensures
            m == outside_block(),
    {
        AicBlockMeta { intra: false, segment: u32::MAX }
    }
}

/// What stands for a block outside the picture or not yet decoded.
pub open spec fn outside_block() -> AicBlockMeta {
    AicBlockMeta { intra: false, segment: u32::MAX }
}

/// The coefficients and states of a picture's blocks, row by row. Each
/// macroblock has two by two luma blocks and one block in each chroma plane.
#[derive(Debug, Clone)]
pub struct AicState {
    pub luma_rec: Vec<[i32; 64]>,
    pub cb_rec: Vec<[i32; 64]>,
    pub cr_rec: Vec<[i32; 64]>,
    pub luma_meta: Vec<AicBlockMeta>,
    pub cb_meta: Vec<AicBlockMeta>,
    pub cr_meta: Vec<AicBlockMeta>,
    /// Luma blocks in a row.
    pub luma_block_cols: usize,
    /// Blocks in a row of a chroma plane.
    pub chroma_block_cols: usize,
}

/// The blocks of one plane.
pub struct AicPlane {
    pub rec: Seq<Seq<i32>>,
    pub meta: Seq<AicBlockMeta>,
    pub cols: int,
}

impl AicPlane {
    /// The plane is `rows` rows high.
    pub open spec fn has_rows(self, rows: int) -> bool {
        &&& self.meta.len() == self.cols * rows
        &&& self.rec.len() == self.meta.len()
        &&& forall|i: int|
            0 <= i < self.rec.len() ==> residual::coefficients_in_range(#[trigger] self.rec[i])
    }

    /// The block at index `slot`, if it can be predicted from.
    pub open spec fn available(self, slot: int, segment: u32) -> Option<Seq<i32>> {
        if self.meta[slot].intra && self.meta[slot].segment == segment {
            Some(self.rec[slot])
        } else {
            None
        }
    }

    /// The block above the one at column `bx` and row `by`, if that can be
    /// predicted from it.
    pub open spec fn above(self, bx: int, by: int, segment: u32) -> Option<Seq<i32>> {
        if by == 0 {
            None
        } else {
            self.available((by - 1) * self.cols + bx, segment)
        }
    }

    /// The block to the left of the one at column `bx` and row `by`, if that
    /// can be predicted from it.
    pub open spec fn left(self, bx: int, by: int, segment: u32) -> Option<Seq<i32>> {
        if bx == 0 {
            None
        } else {
            self.available(by * self.cols + bx - 1, segment)
        }
    }

    /// The plane with an INTRA block at index `slot`.
    pub open spec fn with_intra(self, slot: int, coefficients: Seq<i32>, segment: u32) -> AicPlane {
        AicPlane {
            rec: self.rec.update(slot, coefficients),
            meta: self.meta.update(slot, AicBlockMeta { intra: true, segment }),
            cols: self.cols,
        }
    }

    /// The plane with a block that is not INTRA at index `slot`.
    pub open spec fn with_other(self, slot: int, segment: u32) -> AicPlane {
        AicPlane {
            rec: self.rec,
            meta: self.meta.update(slot, AicBlockMeta { intra: false, segment }),
            cols: self.cols,
        }
    }
}

/// The blocks of a picture's three planes.
pub struct AicPicture {
    pub luma: AicPlane,
    pub cb: AicPlane,
    pub cr: AicPlane,
}

/// The index of luma block `blk` of the macroblock at column `col` and row
/// `row`, in a picture of `cols` luma blocks per row.
pub open spec fn luma_slot(col: int, row: int, blk: int, cols: int) -> int {
    (2 * row + blk / 2) * cols + (2 * col + blk % 2)
}

impl AicPicture {
    /// The picture consists of `cols` by `rows` macroblocks.
    pub open spec fn has_size(self, cols: int, rows: int) -> bool {
        &&& self.luma.cols == 2 * cols
        &&& self.cb.cols == cols
        &&& self.cr.cols == cols
        &&& self.luma.has_rows(2 * rows)
        &&& self.cb.has_rows(rows)
        &&& self.cr.has_rows(rows)
    }

    /// A macroblock that is not INTRA does not change the picture's size.
    pub proof fn lemma_with_other(self, cols: int, rows: int, col: int, row: int, segment: u32)
        requires
            self.has_size(cols, rows),
            0 <= col < cols,
            0 <= row < rows,
        ensures
            self.with_other(col, row, segment).has_size(cols, rows),
    {
        lemma_slots(col, row, cols, rows);
    }

    /// The picture with a macroblock that is not INTRA at column `col` and row
    /// `row`.
    pub open spec fn with_other(self, col: int, row: int, segment: u32) -> AicPicture {
        let n = self.luma.cols;
        AicPicture {
            luma: self.luma.with_other(luma_slot(col, row, 0, n), segment).with_other(
                luma_slot(col, row, 1, n),
                segment,
            ).with_other(luma_slot(col, row, 2, n), segment).with_other(
                luma_slot(col, row, 3, n),
                segment,
            ),
            cb: self.cb.with_other(row * self.cb.cols + col, segment),
            cr: self.cr.with_other(row * self.cr.cols + col, segment),
        }
    }
}

/// Coefficient arrays as sequences.
pub open spec fn recs(v: Seq<[i32; 64]>) -> Seq<Seq<i32>> {
    v.map_values(|a: [i32; 64]| a@)
}

impl View for AicState {
    type V = AicPicture;

    open spec fn view(&self) -> AicPicture {
        AicPicture {
            luma: AicPlane {
                rec: recs(self.luma_rec@),
                meta: self.luma_meta@,
                cols: self.luma_block_cols as int,
            },
            cb: AicPlane {
                rec: recs(self.cb_rec@),
                meta: self.cb_meta@,
                cols: self.chroma_block_cols as int,
            },
            cr: AicPlane {
                rec: recs(self.cr_rec@),
                meta: self.cr_meta@,
                cols: self.chroma_block_cols as int,
            },
        }
    }
}

/// A plane of `cols` by `rows` blocks none of which is decoded yet.
pub open spec fn fresh_plane(cols: int, rows: int) -> AicPlane {
    AicPlane {
        rec: Seq::new((cols * rows) as nat, |i: int| Seq::new(64, |k: int| 0i32)),
        meta: Seq::new((cols * rows) as nat, |i: int| outside_block()),
        cols,
    }
}

/// A picture of `cols` by `rows` macroblocks none of which is decoded yet.
pub open spec fn fresh_picture(cols: int, rows: int) -> AicPicture {
    AicPicture {
        luma: fresh_plane(2 * cols, 2 * rows),
        cb: fresh_plane(cols, rows),
        cr: fresh_plane(cols, rows),
    }
}

/// `n` arrays of zeros.
fn zero_blocks(n: usize) -> (v: Vec<[i32; 64]>)
    ensures
        v@.len() == n,
        recs(v@) == Seq::new(n as nat, |i: int| Seq::new(64, |k: int| 0i32)),
{
    let mut v: Vec<[i32; 64]> = Vec::new();
    let mut i: usize = 0;
    while i < n
        invariant
            i <= n,
            v@.len() == i,
            forall|k: int| 0 <= k < i ==> (#[trigger] v@[k])@ == Seq::new(64, |j: int| 0i32),
        decreases n - i,
    {
        let zeros: [i32; 64] = [0i32; 64];
        assert(zeros@ =~= Seq::new(64, |j: int| 0i32));
        v.push(zeros);
        i = i + 1;
    }
    assert(recs(v@) =~= Seq::new(n as nat, |i: int| Seq::new(64, |k: int| 0i32)));
    v
}

/// `n` states of blocks that are not decoded yet.
fn outside_blocks(n: usize) -> (v: Vec<AicBlockMeta>)
    ensures
        v@ == Seq::new(n as nat, |i: int| outside_block()),
{
    let mut v: Vec<AicBlockMeta> = Vec::new();
    let mut i: usize = 0;
    while i < n
        invariant
            i <= n,
            v@ == Seq::new(i as nat, |i: int| outside_block()),
        decreases n - i,
    {
        v.push(AicBlockMeta::outside());
        i = i + 1;
        assert(v@ =~= Seq::new(i as nat, |i: int| outside_block()));
    }
    v
}

/// The column and row of luma block `blk` of a macroblock among all luma
/// blocks.
pub fn luma_block_grid_pos(mb_col: usize, mb_row: usize, blk: usize) -> (p: (usize, usize))
    requires
        blk < 4,
        2 * mb_col + 1 <= usize::MAX,
        2 * mb_row + 1 <= usize::MAX,
    ensures
        p.0 == 2 * mb_col + blk % 2,
        p.1 == 2 * mb_row + blk / 2,
{
    (2 * mb_col + blk % 2, 2 * mb_row + blk / 2)
}

/// The place of a macroblock's blocks among all blocks.
pub proof fn lemma_slots(col: int, row: int, cols: int, rows: int)
    requires
        0 <= col < cols,
        0 <= row < rows,
    ensures
        0 <= row * cols + col < cols * rows,
        0 <= row * cols,
        forall|blk: int|
            0 <= blk < 4 ==> 0 <= #[trigger] luma_slot(col, row, blk, 2 * cols) < (2 * cols) * (2
                * rows),
{
    scal_upsample::lemma_position(row, col, cols, rows);
    assert forall|blk: int| 0 <= blk < 4 implies 0 <= #[trigger] luma_slot(col, row, blk, 2 * cols)
        < (2 * cols) * (2 * rows) by {
        scal_upsample::lemma_position(2 * row + blk / 2, 2 * col + blk % 2, 2 * cols, 2 * rows);
    }
}

impl AicState {
    /// The state before the first macroblock of a picture of `mb_cols` by
    /// `mb_rows` macroblocks.
    pub fn new(mb_cols: usize, mb_rows: usize) -> (s: AicState)
        requires
            (2 * mb_cols) * (2 * mb_rows) <= usize::MAX,
            2 * mb_cols <= usize::MAX,
            2 * mb_rows <= usize::MAX,
        ensures
            s@ == fresh_picture(mb_cols as int, mb_rows as int),
            s@.has_size(mb_cols as int, mb_rows as int),
    {
        assert(mb_cols * mb_rows <= (2 * mb_cols) * (2 * mb_rows)) by (nonlinear_arith)
            requires
                0 <= mb_cols,
                0 <= mb_rows,
        ;
        let luma: usize = (2 * mb_cols) * (2 * mb_rows);
        let chroma: usize = mb_cols * mb_rows;
        AicState {
            luma_rec: zero_blocks(luma),
            cb_rec: zero_blocks(chroma),
            cr_rec: zero_blocks(chroma),
            luma_meta: outside_blocks(luma),
            cb_meta: outside_blocks(chroma),
            cr_meta: outside_blocks(chroma),
            luma_block_cols: 2 * mb_cols,
            chroma_block_cols: mb_cols,
        }
    }

    /// Note that the macroblock at column `mb_col` and row `mb_row` is not
    /// INTRA.
    pub fn record_non_intra_macroblock(&mut self, mb_col: usize, mb_row: usize, segment: u32)
        requires
            mb_col < old(self).chroma_block_cols,
            exists|rows: int|
                mb_row < rows && #[trigger] old(self)@.has_size(
                    old(self).chroma_block_cols as int,
                    rows,
                ),
        ensures
            final(self)@ == old(self)@.with_other(mb_col as int, mb_row as int, segment),
            final(self).chroma_block_cols == old(self).chroma_block_cols,
    {
        let ghost cols = self.chroma_block_cols as int;
        let ghost rows = choose|rows: int| mb_row < rows && #[trigger] self@.has_size(cols, rows);
        proof {
            lemma_slots(mb_col as int, mb_row as int, cols, rows);
        }
        let n: usize = self.luma_block_cols;
        let other: AicBlockMeta = AicBlockMeta { intra: false, segment };
        let s0: usize = slot_of(mb_col, mb_row, 0, n, Ghost(cols), Ghost(rows), self.luma_meta.len());
        let s1: usize = slot_of(mb_col, mb_row, 1, n, Ghost(cols), Ghost(rows), self.luma_meta.len());
        let s2: usize = slot_of(mb_col, mb_row, 2, n, Ghost(cols), Ghost(rows), self.luma_meta.len());
        let s3: usize = slot_of(mb_col, mb_row, 3, n, Ghost(cols), Ghost(rows), self.luma_meta.len());
        self.luma_meta.set(s0, other);
        self.luma_meta.set(s1, other);
        self.luma_meta.set(s2, other);
        self.luma_meta.set(s3, other);
        assert(self.cb_meta.len() == cols * rows);
        let c: usize = mb_row * self.chroma_block_cols + mb_col;
        self.cb_meta.set(c, other);
        self.cr_meta.set(c, other);
    }
}

/// The index of luma block `blk` of a macroblock.
fn slot_of(
    mb_col: usize,
    mb_row: usize,
    blk: usize,
    n: usize,
    Ghost(cols): Ghost<int>,
    Ghost(rows): Ghost<int>,
    len: usize,
) -> (s: usize)
    requires
        blk < 4,
        n == 2 * cols,
        mb_col < cols,
        mb_row < rows,
        len == (2 * cols) * (2 * rows),
    ensures
        s == luma_slot(mb_col as int, mb_row as int, blk as int, 2 * cols),
        s < len,
{
    proof {
        scal_upsample::lemma_position(
            2 * mb_row + blk as int / 2,
            2 * mb_col + blk as int % 2,
            2 * cols,
            2 * rows,
        );
        assert(2 * rows <= (2 * cols) * (2 * rows)) by (nonlinear_arith)
            requires
                cols >= 1,
                rows >= 1,
        ;
    }
    (2 * mb_row + blk / 2) * n + (2 * mb_col + blk % 2)
}

/// A block to predict from.
pub enum Neighbour<'a> {
    /// There is none.
    Missing,
    /// Its coefficients.
    Available(&'a [i32; 64]),
}

impl<'a> Neighbour<'a> {
    /// The coefficients, if there are any.
    pub open spec fn coefficients(self) -> Option<Seq<i32>> {
        match self {
            Neighbour::Missing => None,
            Neighbour::Available(a) => Some(a@),
        }
    }

    /// There is a block to predict from.
    pub fn is_available(&self) -> (b: bool)
        ensures
            b == self.coefficients() is Some,
    {
        matches!(self, Neighbour::Available(_))
    }
}

/// The block at index `slot`, if it can be predicted from.
fn neighbour_at<'a>(
    rec: &'a [[i32; 64]],
    meta: &[AicBlockMeta],
    slot: usize,
    segment: u32,
) -> (n: Neighbour<'a>)
    requires
        slot < meta@.len(),
        rec@.len() == meta@.len(),
    ensures
        n.coefficients() == (if meta@[slot as int].intra && meta@[slot as int].segment == segment {
            Some(recs(rec@)[slot as int])
        } else {
            None
        }),
{
    let m: AicBlockMeta = meta[slot];
    if m.intra && m.segment == segment {
        Neighbour::Available(&rec[slot])
    } else {
        Neighbour::Missing
    }
}

/// The luma block above the one at column `bx` and row `by`, if that can be
/// predicted from it.
pub fn aic_luma_neighbour_above<'a>(
    state: &'a AicState,
    bx: usize,
    by: usize,
    current_segment: u32,
) -> (n: Neighbour<'a>)
    requires
        bx < state.luma_block_cols,
        by * state.luma_block_cols + bx < state.luma_meta@.len(),
        state.luma_rec@.len() == state.luma_meta@.len(),
    ensures
        n.coefficients() == state@.luma.above(bx as int, by as int, current_segment),
{
    aic_chroma_neighbour_above(
        state.luma_rec.as_slice(),
        state.luma_meta.as_slice(),
        bx,
        by,
        state.luma_block_cols,
        current_segment,
    )
}

/// The luma block to the left of the one at column `bx` and row `by`, if that
/// can be predicted from it.
pub fn aic_luma_neighbour_left<'a>(
    state: &'a AicState,
    bx: usize,
    by: usize,
    current_segment: u32,
) -> (n: Neighbour<'a>)
    requires
        bx < state.luma_block_cols,
        by * state.luma_block_cols + bx < state.luma_meta@.len(),
        state.luma_rec@.len() == state.luma_meta@.len(),
    ensures
        n.coefficients() == state@.luma.left(bx as int, by as int, current_segment),
{
    aic_chroma_neighbour_left(
        state.luma_rec.as_slice(),
        state.luma_meta.as_slice(),
        bx,
        by,
        state.luma_block_cols,
        current_segment,
    )
}

/// The blocks of a plane held in slices.
pub open spec fn plane_of(rec: Seq<[i32; 64]>, meta: Seq<AicBlockMeta>, cols: usize) -> AicPlane {
    AicPlane { rec: recs(rec), meta, cols: cols as int }
}

/// The block above the one at column `col` and row `row` of a plane, if that
/// can be predicted from it.
pub fn aic_chroma_neighbour_above<'a>(
    rec: &'a [[i32; 64]],
    meta: &[AicBlockMeta],
    col: usize,
    row: usize,
    chroma_cols: usize,
    current_segment: u32,
) -> (n: Neighbour<'a>)
    requires
        col < chroma_cols,
        row * chroma_cols + col < meta@.len(),
        rec@.len() == meta@.len(),
    ensures
        n.coefficients() == plane_of(rec@, meta@, chroma_cols).above(
            col as int,
            row as int,
            current_segment,
        ),
{
    assert(meta.len() == meta@.len());
    if row == 0 {
        return Neighbour::Missing;
    }
    proof {
        assert((row - 1) * chroma_cols + chroma_cols == row * chroma_cols) by (nonlinear_arith);
        assert(0 <= (row - 1) * chroma_cols) by (nonlinear_arith)
            requires
                row >= 1,
                chroma_cols >= 0,
        ;
    }
    neighbour_at(rec, meta, (row - 1) * chroma_cols + col, current_segment)
}

/// The block to the left of the one at column `col` and row `row` of a plane,
/// if that can be predicted from it.
pub fn aic_chroma_neighbour_left<'a>(
    rec: &'a [[i32; 64]],
    meta: &[AicBlockMeta],
    col: usize,
    row: usize,
    chroma_cols: usize,
    current_segment: u32,
) -> (n: Neighbour<'a>)
    requires
        col < chroma_cols,
        row * chroma_cols + col < meta@.len(),
        rec@.len() == meta@.len(),
    ensures
        n.coefficients() == plane_of(rec@, meta@, chroma_cols).left(
            col as int,
            row as int,
            current_segment,
        ),
{
    assert(meta.len() == meta@.len());
    if col == 0 {
        return Neighbour::Missing;
    }
    proof {
        assert(0 <= row * chroma_cols) by (nonlinear_arith)
            requires
                row >= 0,
                chroma_cols >= 0,
        ;
    }
    neighbour_at(rec, meta, row * chroma_cols + (col - 1), current_segment)
}

/// A block is predicted only from INTRA blocks of its own segment: one in
/// another segment, or not INTRA, counts as missing.
pub proof fn segments_are_predicted_alone(p: AicPlane, bx: int, by: int, segment: u32)
    ensures
        ({
            let up = p.meta[(by - 1) * p.cols + bx];
            !up.intra || up.segment != segment ==> p.above(bx, by, segment) is None
        }),
        ({
            let beside = p.meta[by * p.cols + bx - 1];
            !beside.intra || beside.segment != segment ==> p.left(bx, by, segment) is None
        }),
        by == 0 ==> p.above(bx, by, segment) is None,
        bx == 0 ==> p.left(bx, by, segment) is None,
{
}

} // verus!
