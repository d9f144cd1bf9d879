//! The macroblocks of a picture as vector prediction sees them.
//!
//! A vector is predicted from the macroblocks to the left, above, and above to
//! the right. Those beyond the picture or in another segment of it - another
//! group of blocks or slice - do not count, nor do those without a vector.

use crate::macroblock::H263Macroblock;
use crate::motion;
use crate::motion::{
    predict_mv_median, LumaBlockIndex, Mb4Mv, Mb4MvNeighbourhood, MotionVector, RemoteMv,
};
use crate::scal_upsample;
use vstd::prelude::*;

verus! {

/// What is remembered of a decoded macroblock.
#[derive(Debug, Clone, Copy)]
pub struct MbGridEntry {
    /// The macroblock is INTRA.
    pub intra: bool,
    /// The macroblock is a skipped one.
    pub not_coded: bool,
    /// The macroblock's vector.
    pub mv: MotionVector,
    /// The vectors of its luma blocks.
    pub mvs4: Mb4Mv,
    /// The segment of the picture that it belongs to.
    pub segment: u32,
}

/// What is remembered of a decoded macroblock, the vectors as a sequence.
pub struct Entry {
    pub intra: bool,
    pub not_coded: bool,
    pub mv: MotionVector,
    pub mvs4: Seq<MotionVector>,
    pub segment: u32,
}

impl View for MbGridEntry {
    type V = Entry;

    open spec fn view(&self) -> Entry {
        Entry {
            intra: self.intra,
            not_coded: self.not_coded,
            mv: self.mv,
            mvs4: self.mvs4@,
            segment: self.segment,
        }
    }
}

/// Four zero vectors.
pub open spec fn zero_vectors() -> Seq<MotionVector> {
    Seq::new(4, |i: int| motion::zero_vector())
}

/// What stands for a macroblock outside the picture or not yet decoded.
pub open spec fn outside_entry() -> Entry {
    Entry {
        intra: false,
        not_coded: false,
        mv: motion::zero_vector(),
        mvs4: zero_vectors(),
        segment: u32::MAX,
    }
}

impl MbGridEntry {
    /// What stands for a macroblock outside the picture or not yet decoded.
    pub fn outside() -> (e: MbGridEntry)
        ensures
            e@ == outside_entry(),
    {
        let zero: MotionVector = MotionVector { dx: 0, dy: 0 };
        let e: MbGridEntry = MbGridEntry {
            intra: false,
            not_coded: false,
            mv: zero,
            mvs4: [zero, zero, zero, zero],
            segment: u32::MAX,
        };
        assert(e.mvs4@ =~= zero_vectors());
        e
    }
}

/// The entries of a grid.
pub open spec fn entries(grid: Seq<MbGridEntry>) -> Seq<Entry> {
    grid.map_values(|e: MbGridEntry| e@)
}

impl Entry {
    /// The entry's vectors are within range.
    pub open spec fn in_range(self) -> bool {
        &&& self.mv.in_range()
        &&& self.mvs4.len() == 4
        &&& forall|i: int| 0 <= i < 4 ==> (#[trigger] self.mvs4[i]).in_range()
    }

    /// The vector that the macroblock stands for in prediction: none where it
    /// was skipped, nor, outside PB-frames, where it is INTRA.
    pub open spec fn candidate(self, pb_frames: bool) -> MotionVector {
        if self.not_coded || self.intra && !pb_frames {
            motion::zero_vector()
        } else {
            self.mv
        }
    }
}

/// All vectors of a grid are within range.
pub open spec fn grid_in_range(grid: Seq<Entry>) -> bool {
    forall|i: int| 0 <= i < grid.len() ==> (#[trigger] grid[i]).in_range()
}

/// The predictor of the vector of the macroblock at column `col` and row `row`.
///
/// The left candidate is zero where it is in another segment or outside. The
/// two above are the left candidate where the macroblock above is in another
/// segment or outside, or in a group of blocks with a header of its own; the
/// right one of them is zero beyond the right edge.
pub open spec fn predictor(
    grid: Seq<Entry>,
    mb_cols: int,
    col: int,
    row: int,
    gob_top_row: int,
    gob_header_present: bool,
    pb_frames: bool,
    current_segment: u32,
) -> MotionVector {
    let left = grid[row * mb_cols + col - 1];
    let above = grid[(row - 1) * mb_cols + col];
    let above_right = grid[(row - 1) * mb_cols + col + 1];
    let mv1 = if col == 0 || left.segment != current_segment {
        motion::zero_vector()
    } else {
        left.candidate(pb_frames)
    };
    let top_border = row == 0 || gob_header_present && row == gob_top_row || above.segment
        != current_segment;
    let mv2 = if top_border {
        mv1
    } else {
        above.candidate(pb_frames)
    };
    let mv3 = if col + 1 >= mb_cols {
        motion::zero_vector()
    } else if top_border || above_right.segment != current_segment {
        mv1
    } else {
        above_right.candidate(pb_frames)
    };
    motion::median_vector(mv1, mv2, mv3)
}

/// The vector that a macroblock stands for in prediction.
fn candidate_value(entry: &MbGridEntry, pb_frames: bool) -> (mv: MotionVector)
    ensures
        mv == entry@.candidate(pb_frames),
{
    if entry.not_coded || (entry.intra && !pb_frames) {
        MotionVector { dx: 0, dy: 0 }
    } else {
        entry.mv
    }
}

/// The entry at column `col` and row `row`.
pub fn entry_at<'a>(grid: &'a [MbGridEntry], mb_cols: usize, col: usize, row: usize) -> (e:
    &'a MbGridEntry)
    requires
        col < mb_cols,
        (row + 1) * mb_cols <= grid@.len(),
    ensures
        e@ == entries(grid@)[row * mb_cols + col],
        e@.mvs4.len() == 4,
{
    assert(grid.len() == grid@.len());
    proof {
        scal_upsample::lemma_position(row as int, col as int, mb_cols as int, row + 1);
        assert(mb_cols * (row + 1) == (row + 1) * mb_cols) by (nonlinear_arith);
    }
    &grid[row * mb_cols + col]
}

/// A grid that reaches through a row reaches through the row before.
proof fn lemma_row_before(row: int, mb_cols: int, len: int)
    requires
        1 <= row,
        0 <= mb_cols,
        (row + 1) * mb_cols <= len,
    ensures
        (row - 1 + 1) * mb_cols <= len,
{
    assert(row * mb_cols <= (row + 1) * mb_cols) by (nonlinear_arith)
        requires
            0 <= mb_cols,
    ;
}

/// Predict the vector of the macroblock at column `col` and row `row`.
pub fn predict_mv(
    grid: &[MbGridEntry],
    mb_cols: usize,
    col: usize,
    row: usize,
    gob_top_row: usize,
    gob_header_present: bool,
    pb_frames: bool,
    current_segment: u32,
) -> (mv: MotionVector)
    requires
        col < mb_cols,
        (row + 1) * mb_cols <= grid@.len(),
    ensures
        mv == predictor(
            entries(grid@),
            mb_cols as int,
            col as int,
            row as int,
            gob_top_row as int,
            gob_header_present,
            pb_frames,
            current_segment,
        ),
        grid_in_range(entries(grid@)) ==> mv.in_range(),
{
    assert(grid.len() == grid@.len());
    let ghost g = entries(grid@);
    proof {
        scal_upsample::lemma_position(row as int, col as int, mb_cols as int, row + 1);
        assert(mb_cols * (row + 1) == (row + 1) * mb_cols) by (nonlinear_arith);
        if row > 0 {
            lemma_row_before(row as int, mb_cols as int, grid@.len() as int);
            scal_upsample::lemma_position(row - 1, col as int, mb_cols as int, row as int);
            assert(mb_cols * row == row * mb_cols) by (nonlinear_arith);
        }
    }
    let mv1: MotionVector = if col == 0 {
        MotionVector { dx: 0, dy: 0 }
    } else {
        let left: &MbGridEntry = entry_at(grid, mb_cols, col - 1, row);
        assert(left@ == g[row * mb_cols + col - 1]);
        if left.segment != current_segment {
            MotionVector { dx: 0, dy: 0 }
        } else {
            candidate_value(left, pb_frames)
        }
    };
    let mut mv2: MotionVector = mv1;
    let mut top_border: bool = true;
    if row > 0 && !(gob_header_present && row == gob_top_row) {
        let above: &MbGridEntry = entry_at(grid, mb_cols, col, row - 1);
        assert(above@ == g[(row - 1) * mb_cols + col]);
        if above.segment == current_segment {
            mv2 = candidate_value(above, pb_frames);
            top_border = false;
        }
    }
    let mv3: MotionVector = if col + 1 >= mb_cols {
        MotionVector { dx: 0, dy: 0 }
    } else if top_border {
        mv1
    } else {
        let above_right: &MbGridEntry = entry_at(grid, mb_cols, col + 1, row - 1);
        assert(above_right@ == g[(row - 1) * mb_cols + col + 1]);
        if above_right.segment != current_segment {
            mv1
        } else {
            candidate_value(above_right, pb_frames)
        }
    };
    predict_mv_median(mv1, mv2, mv3)
}

/// The vectors of a macroblock that has some.
pub open spec fn own_vectors(e: Entry) -> Option<Seq<MotionVector>> {
    if e.intra || e.not_coded {
        None
    } else {
        Some(e.mvs4)
    }
}

/// The vectors of a macroblock that has some.
fn take(entry: &MbGridEntry) -> (v: Option<Mb4Mv>)
    ensures
        motion::vectors_of(v) == own_vectors(entry@),
{
    if entry.intra || entry.not_coded {
        None
    } else {
        Some(entry.mvs4)
    }
}

/// The vectors around the macroblock at column `col` and row `row`. The current
/// macroblock's own count as zero.
pub open spec fn around(grid: Seq<Entry>, mb_cols: int, col: int, row: int) -> motion::Around {
    motion::Around {
        current: zero_vectors(),
        left: if col == 0 {
            None
        } else {
            own_vectors(grid[row * mb_cols + col - 1])
        },
        above: if row == 0 {
            None
        } else {
            own_vectors(grid[(row - 1) * mb_cols + col])
        },
        above_right: if row == 0 || col + 1 >= mb_cols {
            None
        } else {
            own_vectors(grid[(row - 1) * mb_cols + col + 1])
        },
        right: None,
    }
}

/// The vectors around the macroblock at column `col` and row `row`. The
/// macroblock to the right is never decoded yet, and the current macroblock's
/// own vectors count as zero.
pub fn build_4mv_neighbourhood(
    grid: &[MbGridEntry],
    mb_cols: usize,
    col: usize,
    row: usize,
) -> (n: Mb4MvNeighbourhood)
    requires
        col < mb_cols,
        (row + 1) * mb_cols <= grid@.len(),
    ensures
        n@ == around(entries(grid@), mb_cols as int, col as int, row as int),
{
    proof {
        if row > 0 {
            lemma_row_before(row as int, mb_cols as int, grid@.len() as int);
        }
        scal_upsample::lemma_position(row as int, col as int, mb_cols as int, row + 1);
        assert(mb_cols * (row + 1) == (row + 1) * mb_cols) by (nonlinear_arith);
    }
    assert(grid.len() == grid@.len());
    let left: Option<Mb4Mv> = if col == 0 {
        None
    } else {
        take(entry_at(grid, mb_cols, col - 1, row))
    };
    let above: Option<Mb4Mv> = if row == 0 {
        None
    } else {
        take(entry_at(grid, mb_cols, col, row - 1))
    };
    let above_right: Option<Mb4Mv> = if row == 0 || col + 1 >= mb_cols {
        None
    } else {
        take(entry_at(grid, mb_cols, col + 1, row - 1))
    };
    let zero: MotionVector = MotionVector { dx: 0, dy: 0 };
    let current: Mb4Mv = [zero, zero, zero, zero];
    assert(current@ =~= zero_vectors());
    Mb4MvNeighbourhood { current, left, above, above_right, right: None }
}

/// What a neighbouring macroblock's vector counts as in overlapped prediction:
/// zero where it was skipped, and the current block's own where it is INTRA or
/// missing.
pub open spec fn remote(nb: Option<Entry>, outside: bool, b: LumaBlockIndex) -> RemoteMv {
    match nb {
        Some(e) => if outside {
            RemoteMv::Current
        } else if e.not_coded {
            RemoteMv::Zero
        } else if e.intra {
            RemoteMv::Current
        } else {
            RemoteMv::Vector(e.mvs4[b.spec_index()])
        },
        None => RemoteMv::Current,
    }
}

/// The vectors above, below, left and right of a luma block. Those of the
/// current macroblock's other blocks are at hand; below the macroblock nothing
/// is decoded yet, and the block's own vector stands in.
pub open spec fn remotes(
    blk: LumaBlockIndex,
    current: Seq<MotionVector>,
    above: Option<Entry>,
    left: Option<Entry>,
    right: Option<Entry>,
    above_outside: bool,
    left_outside: bool,
    right_outside: bool,
) -> (RemoteMv, RemoteMv, RemoteMv, RemoteMv) {
    match blk {
        LumaBlockIndex::B1 => (
            remote(above, above_outside, LumaBlockIndex::B3),
            RemoteMv::Vector(current[2]),
            remote(left, left_outside, LumaBlockIndex::B2),
            RemoteMv::Vector(current[1]),
        ),
        LumaBlockIndex::B2 => (
            remote(above, above_outside, LumaBlockIndex::B4),
            RemoteMv::Vector(current[3]),
            RemoteMv::Vector(current[0]),
            remote(right, right_outside, LumaBlockIndex::B1),
        ),
        LumaBlockIndex::B3 => (
            RemoteMv::Vector(current[0]),
            RemoteMv::Current,
            remote(left, left_outside, LumaBlockIndex::B4),
            RemoteMv::Vector(current[3]),
        ),
        LumaBlockIndex::B4 => (
            RemoteMv::Vector(current[1]),
            RemoteMv::Current,
            RemoteMv::Vector(current[2]),
            remote(right, right_outside, LumaBlockIndex::B3),
        ),
    }
}

/// An optional entry's view.
pub open spec fn entry_of(e: Option<MbGridEntry>) -> Option<Entry> {
    match e {
        Some(m) => Some(m@),
        None => None,
    }
}

fn classify(nb: &Option<MbGridEntry>, outside: bool, b: LumaBlockIndex) -> (r: RemoteMv)
    ensures
        r == remote(entry_of(*nb), outside, b),
{
    match nb {
        Some(e) => {
            if outside {
                RemoteMv::Current
            } else if e.not_coded {
                RemoteMv::Zero
            } else if e.intra {
                RemoteMv::Current
            } else {
                RemoteMv::Vector(e.mvs4[b.index()])
            }
        },
        None => RemoteMv::Current,
    }
}

/// Tell what the vectors above, below, left and right of a luma block count as
/// in overlapped prediction. Whether there is a macroblock below makes no
/// difference.
pub fn classify_remote_mvs(
    blk: LumaBlockIndex,
    current: &Mb4Mv,
    nb_above: Option<MbGridEntry>,
    nb_left: Option<MbGridEntry>,
    nb_right: Option<MbGridEntry>,
    mb_above_outside: bool,
    mb_left_outside: bool,
    mb_right_outside: bool,
    mb_below_outside: bool,
) -> (r: (RemoteMv, RemoteMv, RemoteMv, RemoteMv))
    ensures
        r == remotes(
            blk,
            current@,
            entry_of(nb_above),
            entry_of(nb_left),
            entry_of(nb_right),
            mb_above_outside,
            mb_left_outside,
            mb_right_outside,
        ),
{
    match blk {
        LumaBlockIndex::B1 => (
            classify(&nb_above, mb_above_outside, LumaBlockIndex::B3),
            RemoteMv::Vector(current[2]),
            classify(&nb_left, mb_left_outside, LumaBlockIndex::B2),
            RemoteMv::Vector(current[1]),
        ),
        LumaBlockIndex::B2 => (
            classify(&nb_above, mb_above_outside, LumaBlockIndex::B4),
            RemoteMv::Vector(current[3]),
            RemoteMv::Vector(current[0]),
            classify(&nb_right, mb_right_outside, LumaBlockIndex::B1),
        ),
        LumaBlockIndex::B3 => (
            RemoteMv::Vector(current[0]),
            RemoteMv::Current,
            classify(&nb_left, mb_left_outside, LumaBlockIndex::B4),
            RemoteMv::Vector(current[3]),
        ),
        LumaBlockIndex::B4 => (
            RemoteMv::Vector(current[1]),
            RemoteMv::Current,
            RemoteMv::Vector(current[2]),
            classify(&nb_right, mb_right_outside, LumaBlockIndex::B3),
        ),
    }
}

/// What is remembered of a macroblock.
pub open spec fn recorded(
    mb: H263Macroblock,
    mv: MotionVector,
    mvs4: Seq<MotionVector>,
    segment: u32,
) -> Entry {
    Entry {
        intra: mb.mb_type matches Some(t) && t.intra(),
        not_coded: !mb.coded,
        mv,
        mvs4,
        segment,
    }
}

/// Remember a decoded macroblock and its quantiser.
pub fn record_grid(
    grid: &mut [MbGridEntry],
    mb_quant: &mut [u8],
    mb_cols: usize,
    col: usize,
    row: usize,
    mb: &H263Macroblock,
    quant: u8,
    mv: MotionVector,
    mvs4: Mb4Mv,
    segment: u32,
)
    requires
        col < mb_cols,
        (row + 1) * mb_cols <= old(grid)@.len(),
        old(mb_quant)@.len() == old(grid)@.len(),
    ensures
        entries(final(grid)@) == entries(old(grid)@).update(
            row * mb_cols + col,
            recorded(*mb, mv, mvs4@, segment),
        ),
        final(mb_quant)@ == old(mb_quant)@.update(row * mb_cols + col, quant),
        final(grid)@.len() == old(grid)@.len(),
{
    assert(grid.len() == grid@.len());
    proof {
        scal_upsample::lemma_position(row as int, col as int, mb_cols as int, row + 1);
        assert(mb_cols * (row + 1) == (row + 1) * mb_cols) by (nonlinear_arith);
    }
    let idx: usize = row * mb_cols + col;
    let intra: bool = match mb.mb_type {
        Some(t) => t.is_intra(),
        None => false,
    };
    grid[idx] = MbGridEntry { intra, not_coded: !mb.coded, mv, mvs4, segment };
    mb_quant[idx] = quant;
    assert(entries(grid@) =~= entries(old(grid)@).update(
        row * mb_cols + col,
        recorded(*mb, mv, mvs4@, segment),
    ));
}

/// Prediction never looks across a segment border: where the macroblocks to the
/// left and above are outside the picture or in other segments, the predictor
/// is zero whatever their vectors are.
pub proof fn segments_are_predicted_alone(
    grid: Seq<Entry>,
    mb_cols: int,
    col: int,
    row: int,
    gob_top_row: int,
    gob_header_present: bool,
    pb_frames: bool,
    current_segment: u32,
)
    requires
        col == 0 || grid[row * mb_cols + col - 1].segment != current_segment,
        row == 0 || grid[(row - 1) * mb_cols + col].segment != current_segment,
    ensures
        predictor(
            grid,
            mb_cols,
            col,
            row,
            gob_top_row,
            gob_header_present,
            pb_frames,
            current_segment,
        ) == motion::zero_vector(),
{
}

} // verus!
