//! The block boundary filter of the Reduced Resolution Update mode.
//!
//! Reconstructed blocks of that mode are sixteen samples wide and high. Along
//! their edges either the two samples at the edge are blended, or, with the
//! Deblocking Filter mode on, the deblocking filter runs at infinite strength.
//! An edge is filtered where at least one of the blocks at it is coded; no
//! filtering crosses the edge of the picture.

use crate::deblock;
use crate::deblock::{filter_pass, LineFilter, STRENGTH_RRU_INFINITE};
use vstd::prelude::*;

verus! {

/// The side of a reconstructed block.
pub const RRU_BLOCK_DIM: usize = 16;

/// The sample `near` with a quarter of its neighbour `far`.
pub fn rru_default_tap(near: u8, far: u8) -> (s: u8)
    ensures
        s == (3 * near + far + 2) / 4,
{
    deblock::blend(near, far)
}

/// Which filter runs along the edges.
#[derive(Debug, Clone, Copy, PartialEq, Eq, Structural)]
pub enum RruFilterMode {
    /// The two samples at an edge are blended.
    Default,
    /// The deblocking filter runs at infinite strength.
    Deblocking,
}

/// Whether an edge is filtered.
#[derive(Debug, Clone, Copy, PartialEq, Eq, Structural)]
pub enum RruEdgeCondition {
    /// At least one of the blocks at the edge is coded.
    Filter,
    /// Neither is, or no filtering may cross the edge.
    Skip,
}

/// What is done to the lines across an edge.
pub open spec fn rru_filter_of(mode: RruFilterMode, c: RruEdgeCondition) -> LineFilter {
    match (mode, c) {
        (_, RruEdgeCondition::Skip) => LineFilter::Leave,
        (RruFilterMode::Default, RruEdgeCondition::Filter) => LineFilter::Blend,
        (RruFilterMode::Deblocking, RruEdgeCondition::Filter) => LineFilter::Ramp {
            strength: STRENGTH_RRU_INFINITE,
        },
    }
}

/// `how` follows an answer of a condition function for edge `e` behind block
/// `b` along it.
pub open spec fn rru_filtered_as<F: Fn((usize, usize), (usize, usize)) -> RruEdgeCondition>(
    f: F,
    mode: RruFilterMode,
    p: deblock::Pass,
    how: Map<(int, int), LineFilter>,
    b: usize,
    e: usize,
) -> bool {
    how.dom().contains((b as int, e as int)) && exists|c: RruEdgeCondition|
        call_ensures(f, p.pair(b, e), c) && how[(b as int, e as int)] == #[trigger] rru_filter_of(
            mode,
            c,
        )
}

/// `how` follows the answers of a condition function for every edge of a pass.
pub open spec fn rru_decided<F: Fn((usize, usize), (usize, usize)) -> RruEdgeCondition>(
    f: F,
    mode: RruFilterMode,
    p: deblock::Pass,
    how: Map<(int, int), LineFilter>,
) -> bool {
    forall|b: usize, e: usize|
        p.has_edge(b as int, e as int) ==> #[trigger] rru_filtered_as(f, mode, p, how, b, e)
}

/// A condition function may be asked about every edge of a pass.
pub open spec fn rru_condition<F: Fn((usize, usize), (usize, usize)) -> RruEdgeCondition>(
    f: F,
    p: deblock::Pass,
) -> bool {
    forall|b: usize, e: usize|
        p.has_edge(b as int, e as int) ==> #[trigger] call_requires(f, p.pair(b, e))
}

/// Whatever a condition function asks for along the edges of a pass stays
/// inside a buffer of `len` samples.
pub open spec fn rru_inside<F: Fn((usize, usize), (usize, usize)) -> RruEdgeCondition>(
    f: F,
    mode: RruFilterMode,
    p: deblock::Pass,
    len: nat,
) -> bool {
    forall|b: usize, e: usize, c: RruEdgeCondition|
        p.has_edge(b as int, e as int) && #[trigger] call_ensures(f, p.pair(b, e), c)
            ==> p.stays_inside(len as int, b as int, e as int, rru_filter_of(mode, c))
}

/// Filter the block edges of a plane: all horizontal edges, then all vertical
/// ones. The condition is asked once for each edge, with the columns and rows
/// of the block in front of it and the block behind it.
///
/// Rows may be longer than they lie apart; they then share samples, and no
/// edge may be filtered whose lines leave the buffer.
pub fn rru_filter_plane<F: Fn((usize, usize), (usize, usize)) -> RruEdgeCondition>(
    plane: &mut [u8],
    width: usize,
    height: usize,
    stride: usize,
    mode: RruFilterMode,
    condition_for_edge: F,
)
    requires
        deblock::plane_fits(width, height, stride, 16, old(plane)@.len()),
        rru_condition(condition_for_edge, deblock::rows_pass(width, height, stride, 16)),
        rru_condition(condition_for_edge, deblock::columns_pass(width, height, stride, 16)),
        width <= stride || rru_inside(
            condition_for_edge,
            mode,
            deblock::rows_pass(width, height, stride, 16),
            old(plane)@.len(),
        ) && rru_inside(
            condition_for_edge,
            mode,
            deblock::columns_pass(width, height, stride, 16),
            old(plane)@.len(),
        ),
    ensures
        exists|rows: Map<(int, int), LineFilter>, columns: Map<(int, int), LineFilter>|
            #![trigger rru_decided(
                condition_for_edge,
                mode,
                deblock::rows_pass(width, height, stride, 16),
                rows,
            ), rru_decided(
                condition_for_edge,
                mode,
                deblock::columns_pass(width, height, stride, 16),
                columns,
            )]
            rru_decided(
                condition_for_edge,
                mode,
                deblock::rows_pass(width, height, stride, 16),
                rows,
            ) && rru_decided(
                condition_for_edge,
                mode,
                deblock::columns_pass(width, height, stride, 16),
                columns,
            ) && final(plane)@ == deblock::columns_pass(width, height, stride, 16).in_turn(
                deblock::rows_pass(width, height, stride, 16).in_turn(old(plane)@, rows),
                columns,
            ),
{
    let ghost rp = deblock::rows_pass(width, height, stride, 16);
    let ghost cp = deblock::columns_pass(width, height, stride, 16);
    let asked: &F = &condition_for_edge;
    let decide = |b1: (usize, usize), b2: (usize, usize)| -> (r: LineFilter)
        requires
            deblock::may_ask(asked, b1, b2),
        ensures
            exists|c: RruEdgeCondition|
                deblock::answers(asked, b1, b2, c) && r == #[trigger] rru_filter_of(mode, c),
        {
            let c: RruEdgeCondition = asked(b1, b2);
            assert(deblock::answers(asked, b1, b2, c));
            let r: LineFilter = match c {
                RruEdgeCondition::Skip => LineFilter::Leave,
                RruEdgeCondition::Filter => match mode {
                    RruFilterMode::Default => LineFilter::Blend,
                    RruFilterMode::Deblocking => LineFilter::Ramp {
                        strength: STRENGTH_RRU_INFINITE,
                    },
                },
            };
            assert(r == rru_filter_of(mode, c));
            r
        };
    proof {
        let len = plane@.len() as int;
        assert(stride * height == height * stride) by (nonlinear_arith);
        assert forall|b: usize, e: usize, f: LineFilter|
            rp.has_edge(b as int, e as int) && #[trigger] call_ensures(decide, rp.pair(b, e), f)
                implies rp.may_smooth(len, b as int, e as int, f) by {
            if width <= stride {
                rp.lemma_inside(len, b as int, e as int, f);
            }
        }
        assert forall|b: usize, e: usize, f: LineFilter|
            cp.has_edge(b as int, e as int) && #[trigger] call_ensures(decide, cp.pair(b, e), f)
                implies cp.may_smooth(len, b as int, e as int, f) by {
            if width <= stride {
                cp.lemma_inside(len, b as int, e as int, f);
            }
        }
    }
    let rows: Ghost<Map<(int, int), LineFilter>> = filter_pass(
        plane,
        stride,
        false,
        height,
        width,
        RRU_BLOCK_DIM,
        &decide,
    );
    let columns: Ghost<Map<(int, int), LineFilter>> = filter_pass(
        plane,
        stride,
        true,
        width,
        height,
        RRU_BLOCK_DIM,
        &decide,
    );
    assert forall|b: usize, e: usize|
        rp.has_edge(b as int, e as int) implies #[trigger] rru_filtered_as(
        condition_for_edge,
        mode,
        rp,
        rows@,
        b,
        e,
    ) by {
        assert(deblock::settled(&decide, rp, rows@, b, e));
    }
    assert forall|b: usize, e: usize|
        cp.has_edge(b as int, e as int) implies #[trigger] rru_filtered_as(
        condition_for_edge,
        mode,
        cp,
        columns@,
        b,
        e,
    ) by {
        assert(deblock::settled(&decide, cp, columns@, b, e));
    }
    assert(rru_decided(condition_for_edge, mode, rp, rows@));
    assert(rru_decided(condition_for_edge, mode, cp, columns@));
}

} // verus!
