//! Smoothing of block edges in a reconstructed plane.
//!
//! An edge lies between two neighbouring blocks. Across it stands a line of
//! four samples at each position along it, two in either block. The deblocking
//! filter moves all four by an amount that first rises and then falls with the
//! step between the blocks; its strength follows the quantiser.
//!
//! Horizontal edges are smoothed before vertical ones, so a vertical edge sees
//! what the first pass has left. The lines of one pass do not overlap.

use crate::upsample;
use vstd::prelude::*;

verus! {

/// A strength at which the ramp lets every step through.
pub const STRENGTH_RRU_INFINITE: i32 = 0x0fff_ffff;

/// What is done to the lines across an edge.
#[derive(Clone, Copy, Debug, PartialEq, Eq, Structural)]
pub enum LineFilter {
    /// Nothing.
    Leave,
    /// The two samples at the edge each take a quarter of the other.
    Blend,
    /// The deblocking filter.
    Ramp { strength: i32 },
}

/// What the deblocking filter does at an edge.
#[derive(Clone, Copy, Debug, PartialEq, Eq, Structural)]
pub enum EdgeCondition {
    /// The edge is smoothed.
    Filter { strength: i32 },
    /// The edge is left as it is.
    Skip,
}

/// The distance of `x` from zero.
pub open spec fn magnitude(x: int) -> int {
    if x < 0 {
        -x
    } else {
        x
    }
}

/// `x` up to the strength, and then back to zero at twice the strength; the
/// sign stays.
pub open spec fn up_down_ramp(x: int, strength: int) -> int {
    let m = magnitude(x);
    let excess = if m > strength {
        2 * (m - strength)
    } else {
        0
    };
    let left = if m > excess {
        m - excess
    } else {
        0
    };
    if x < 0 {
        -left
    } else {
        left
    }
}

/// `x`, no further from zero than `limit`.
pub open spec fn limited(x: int, limit: int) -> int {
    let m = magnitude(limit);
    if x < -m {
        -m
    } else if x > m {
        m
    } else {
        x
    }
}

/// A number brought into the range of a sample.
pub open spec fn to_sample(x: int) -> u8 {
    if x < 0 {
        0
    } else if x > 255 {
        255
    } else {
        x as u8
    }
}

/// The sample `near` with a quarter of its neighbour `far`.
pub open spec fn blended(near: u8, far: u8) -> u8 {
    ((3 * near + far + 2) / 4) as u8
}

/// How far the deblocking filter moves the two samples at the edge.
pub open spec fn inner_step(line: Seq<u8>, strength: int) -> int {
    up_down_ramp(
        upsample::truncated(line[0] - 4 * line[1] + 4 * line[2] - line[3], 8),
        strength,
    )
}

/// How far the deblocking filter moves the two samples further away.
pub open spec fn outer_step(line: Seq<u8>, strength: int) -> int {
    limited(
        upsample::truncated(line[0] - line[3], 4),
        upsample::truncated(inner_step(line, strength), 2),
    )
}

/// The line across an edge after smoothing.
pub open spec fn smoothed(f: LineFilter, line: Seq<u8>) -> Seq<u8> {
    match f {
        LineFilter::Leave => line,
        LineFilter::Blend => seq![
            line[0],
            blended(line[1], line[2]),
            blended(line[2], line[1]),
            line[3],
        ],
        LineFilter::Ramp { strength } => {
            let inner = inner_step(line, strength as int);
            let outer = outer_step(line, strength as int);
            seq![
                (line[0] - outer) as u8,
                to_sample(line[1] + inner),
                to_sample(line[2] - inner),
                (line[3] + outer) as u8,
            ]
        },
    }
}

/// The deblocking strength of each quantiser.
pub open spec fn strength_of(quant: int) -> int {
    if quant <= 2 {
        1
    } else if quant <= 4 {
        2
    } else if quant <= 6 {
        3
    } else if quant <= 9 {
        4
    } else if quant <= 11 {
        5
    } else if quant <= 13 {
        6
    } else if quant <= 16 {
        7
    } else if quant <= 19 {
        8
    } else if quant <= 22 {
        9
    } else if quant <= 25 {
        10
    } else if quant <= 28 {
        11
    } else {
        12
    }
}

/// The deblocking strength for a quantiser.
pub fn strength_for_quant(quant: u8) -> (s: i32)
    requires
        1 <= quant <= 31,
    ensures
        s == strength_of(quant as int),
{
    match quant {
        0..=2 => 1,
        3..=4 => 2,
        5..=6 => 3,
        7..=9 => 4,
        10..=11 => 5,
        12..=13 => 6,
        14..=16 => 7,
        17..=19 => 8,
        20..=22 => 9,
        23..=25 => 10,
        26..=28 => 11,
        _ => 12,
    }
}

/// A quarter, an eighth or a half, cut off towards zero.
fn part(n: i32, d: u32) -> (q: i32)
    requires
        d > 0,
        -0x1_0000 <= n <= 0x1_0000,
    ensures
        q == upsample::truncated(n as int, d as int),
        -0x1_0000 <= q <= 0x1_0000,
        n >= 0 ==> 0 <= q <= n,
        n <= 0 ==> n <= q <= 0,
{
    if n >= 0 {
        proof {
            vstd::arithmetic::div_mod::lemma_div_nonincreasing(n as int, d as int);
        }
        (n as u32 / d) as i32
    } else {
        proof {
            vstd::arithmetic::div_mod::lemma_div_nonincreasing(-n as int, d as int);
        }
        -(((-n) as u32 / d) as i32)
    }
}

/// Apply the ramp.
fn ramped(x: i32, strength: i32) -> (r: i32)
    requires
        0 <= strength,
        -0x1_0000 <= x <= 0x1_0000,
    ensures
        r == up_down_ramp(x as int, strength as int),
        x >= 0 ==> 0 <= r <= x,
        x <= 0 ==> x <= r <= 0,
{
    let m: i32 = if x < 0 {
        -x
    } else {
        x
    };
    let excess: i32 = if m > strength {
        2 * (m - strength)
    } else {
        0
    };
    let left: i32 = if m > excess {
        m - excess
    } else {
        0
    };
    if x < 0 {
        -left
    } else {
        left
    }
}

/// Bring a number into the range of a sample.
fn clip(x: i32) -> (s: u8)
    ensures
        s == to_sample(x as int),
{
    if x < 0 {
        0
    } else if x > 255 {
        255
    } else {
        x as u8
    }
}

/// Run the deblocking filter on one line.
pub fn apply_edge_samples(line: &mut [u8; 4], strength: i32)
    requires
        0 <= strength,
    ensures
        final(line)@ == smoothed(LineFilter::Ramp { strength }, old(line)@),
{
    let a: i32 = line[0] as i32;
    let b: i32 = line[1] as i32;
    let c: i32 = line[2] as i32;
    let d: i32 = line[3] as i32;
    let inner: i32 = ramped(part(a - 4 * b + 4 * c - d, 8), strength);
    let reach: i32 = part(inner, 2);
    let bound: i32 = if reach < 0 {
        -reach
    } else {
        reach
    };
    let slope: i32 = part(a - d, 4);
    let outer: i32 = if slope < -bound {
        -bound
    } else if slope > bound {
        bound
    } else {
        slope
    };
    line[0] = (a - outer) as u8;
    line[1] = clip(b + inner);
    line[2] = clip(c - inner);
    line[3] = (d + outer) as u8;
    assert(line@ =~= smoothed(LineFilter::Ramp { strength }, old(line)@));
}

/// The sample `near` with a quarter of its neighbour `far`.
pub fn blend(near: u8, far: u8) -> (s: u8)
    ensures
        s == blended(near, far),
{
    ((3 * near as u32 + far as u32 + 2) / 4) as u8
}

/// A line of equal samples is not changed by any smoothing.
pub proof fn flat_lines_stay(f: LineFilter, line: Seq<u8>)
    requires
        line.len() == 4,
        line[0] == line[1] == line[2] == line[3],
        f matches LineFilter::Ramp { strength } ==> 0 <= strength,
    ensures
        smoothed(f, line) == line,
{
    assert(smoothed(f, line) =~= line);
}

/// At infinite strength the ramp lets the whole step between the blocks
/// through.
pub proof fn infinite_strength_is_no_ramp(line: Seq<u8>)
    requires
        line.len() == 4,
    ensures
        inner_step(line, STRENGTH_RRU_INFINITE as int) == upsample::truncated(
            line[0] - 4 * line[1] + 4 * line[2] - line[3],
            8,
        ),
{
}

/// A filter reads or writes sample `i` of a line.
pub open spec fn reaches(f: LineFilter, i: int) -> bool {
    match f {
        LineFilter::Leave => false,
        LineFilter::Blend => 1 <= i <= 2,
        LineFilter::Ramp { .. } => 0 <= i <= 3,
    }
}

/// One pass over a plane's edges of one direction.
///
/// `across` runs over the edges and `along` runs along them; the plane has
/// `across` times `along` samples in blocks of side `dim`, and rows start
/// `stride` samples apart. Edges are upright where `across` counts columns.
pub struct Pass {
    pub stride: int,
    pub upright: bool,
    pub across: int,
    pub along: int,
    pub dim: int,
}

impl Pass {
    /// The plane is made of whole blocks.
    pub open spec fn blocked(self) -> bool {
        &&& self.dim >= 4
        &&& self.across >= 0
        &&& self.along >= 0
        &&& self.across % self.dim == 0
        &&& self.along % self.dim == 0
    }

    /// A buffer of `len` samples holds the plane, and its rows do not overlap.
    pub open spec fn fits(self, len: int) -> bool {
        &&& self.blocked()
        &&& if self.upright {
            self.across <= self.stride && self.along * self.stride <= len
        } else {
            self.along <= self.stride && self.across * self.stride <= len
        }
    }

    /// The buffer's index of a sample.
    pub open spec fn place(self, u: int, v: int) -> int {
        if self.upright {
            v * self.stride + u
        } else {
            u * self.stride + v
        }
    }

    /// The position across the edges of the sample at index `k`.
    pub open spec fn u_of(self, k: int) -> int {
        if self.upright {
            k % self.stride
        } else {
            k / self.stride
        }
    }

    /// The position along the edges of the sample at index `k`.
    pub open spec fn v_of(self, k: int) -> int {
        if self.upright {
            k / self.stride
        } else {
            k % self.stride
        }
    }

    /// The blocks across the edges.
    pub open spec fn blocks_across(self) -> int {
        self.across / self.dim
    }

    /// The blocks along the edges.
    pub open spec fn blocks_along(self) -> int {
        self.along / self.dim
    }

    /// The edge whose line position `u` is in; edge `e` lies behind block `e`.
    pub open spec fn edge_of(self, u: int) -> int {
        (u + 2) / self.dim - 1
    }

    /// Which sample of that line it is.
    pub open spec fn slot_of(self, u: int) -> int {
        (u + 2) % self.dim
    }

    /// Position `u` is in the line of an edge inside the plane.
    pub open spec fn near_edge(self, u: int) -> bool {
        self.slot_of(u) < 4 && 0 <= self.edge_of(u) < self.blocks_across() - 1
    }

    /// The line across edge `e` at position `v` along it.
    pub open spec fn line(self, p: Seq<u8>, e: int, v: int) -> Seq<u8> {
        Seq::new(4, |i: int| p[self.place((e + 1) * self.dim - 2 + i, v)])
    }

    /// The buffer's index of sample `i` of that line.
    pub open spec fn spot(self, e: int, i: int, v: int) -> int {
        self.place((e + 1) * self.dim - 2 + i, v)
    }

    /// What a filter reaches of the lines across edge `e` behind block `b`
    /// along it lies inside a buffer of `len` samples.
    pub open spec fn stays_inside(self, len: int, b: int, e: int, f: LineFilter) -> bool {
        forall|i: int, v: int|
            reaches(f, i) && b * self.dim <= v < b * self.dim + self.dim ==> #[trigger] self.spot(
                e,
                i,
                v,
            ) < len
    }

    /// A filter may run along edge `e` behind block `b` along it.
    pub open spec fn may_smooth(self, len: int, b: int, e: int, f: LineFilter) -> bool {
        &&& self.stays_inside(len, b, e, f)
        &&& f matches LineFilter::Ramp { strength } ==> 0 <= strength
    }

    /// The buffer once the line across edge `e` at position `v` is smoothed.
    pub open spec fn with_line(self, p: Seq<u8>, e: int, v: int, f: LineFilter) -> Seq<u8> {
        let line = smoothed(f, self.line(p, e, v));
        match f {
            LineFilter::Leave => p,
            LineFilter::Blend => p.update(self.spot(e, 1, v), line[1]).update(
                self.spot(e, 2, v),
                line[2],
            ),
            LineFilter::Ramp { .. } => p.update(self.spot(e, 0, v), line[0]).update(
                self.spot(e, 1, v),
                line[1],
            ).update(self.spot(e, 2, v), line[2]).update(self.spot(e, 3, v), line[3]),
        }
    }

    /// The buffer once the first `n` lines across edge `e` behind block `b`
    /// along it are smoothed, one by one.
    pub open spec fn with_lines(self, p: Seq<u8>, b: int, e: int, f: LineFilter, n: int) -> Seq<u8>
        decreases n,
    {
        if n <= 0 {
            p
        } else {
            self.with_line(self.with_lines(p, b, e, f, n - 1), e, b * self.dim + n - 1, f)
        }
    }

    /// The buffer once the edges in front of edge `e`, and edge `e` behind the
    /// first `b` blocks along it, are smoothed in turn.
    pub open spec fn with_edges(
        self,
        p: Seq<u8>,
        how: Map<(int, int), LineFilter>,
        e: int,
        b: int,
    ) -> Seq<u8>
        decreases e, b,
    {
        if e >= 0 && b > 0 {
            let before = self.with_edges(p, how, e, b - 1);
            if how.dom().contains((b - 1, e)) {
                self.with_lines(before, b - 1, e, how[(b - 1, e)], self.dim)
            } else {
                before
            }
        } else if e > 0 {
            self.with_edges(p, how, e - 1, self.blocks_along())
        } else {
            p
        }
    }

    /// The buffer after the pass: edge by edge, along each edge block by block
    /// and line by line, each line as the ones in front of it have left it.
    /// `how` tells for a block along the edges and an edge what is done there,
    /// and what it does not tell of is left.
    pub open spec fn in_turn(self, p: Seq<u8>, how: Map<(int, int), LineFilter>) -> Seq<u8> {
        self.with_edges(p, how, self.blocks_across() - 1, 0)
    }

    /// The sample at index `k` after a pass whose lines are all taken from the
    /// plane as it was in front of it.
    pub open spec fn sample(
        self,
        p: Seq<u8>,
        how: Map<(int, int), LineFilter>,
        k: int,
    ) -> u8 {
        let u = self.u_of(k);
        let v = self.v_of(k);
        let key = (v / self.dim, self.edge_of(u));
        if 0 <= u < self.across && 0 <= v < self.along && self.near_edge(u) && how.dom().contains(
            key,
        ) {
            smoothed(how[key], self.line(p, self.edge_of(u), v))[self.slot_of(u)]
        } else {
            p[k]
        }
    }

    /// The plane after such a pass.
    pub open spec fn filtered(self, p: Seq<u8>, how: Map<(int, int), LineFilter>) -> Seq<u8> {
        Seq::new(p.len(), |k: int| self.sample(p, how, k))
    }

    /// The two blocks, by column and row, at edge `e` behind block `b` along it.
    pub open spec fn pair(self, b: usize, e: usize) -> ((usize, usize), (usize, usize)) {
        if self.upright {
            ((e, b), ((e + 1) as usize, b))
        } else {
            ((b, e), (b, (e + 1) as usize))
        }
    }

    /// There is an edge `e` behind block `b` along it.
    pub open spec fn has_edge(self, b: int, e: int) -> bool {
        0 <= b < self.blocks_along() && 0 <= e < self.blocks_across() - 1
    }

    /// A sample of edge `e`'s line is inside the buffer, at its own index.
    pub proof fn lemma_place(self, len: int, u: int, v: int)
        requires
            self.fits(len),
            0 <= u < self.across,
            0 <= v < self.along,
        ensures
            0 <= self.place(u, v) < len,
            self.u_of(self.place(u, v)) == u,
            self.v_of(self.place(u, v)) == v,
    {
        if self.upright {
            crate::scal_upsample::lemma_position(v, u, self.stride, self.along);
            assert(self.stride * self.along == self.along * self.stride) by (nonlinear_arith);
        } else {
            crate::scal_upsample::lemma_position(u, v, self.stride, self.across);
            assert(self.stride * self.across == self.across * self.stride) by (nonlinear_arith);
        }
    }

    /// The index of a sample inside the plane is made of its two positions.
    pub proof fn lemma_index(self, len: int, k: int)
        requires
            self.fits(len),
            0 <= k,
            0 <= self.u_of(k) < self.across,
            0 <= self.v_of(k) < self.along,
        ensures
            self.place(self.u_of(k), self.v_of(k)) == k,
    {
        vstd::arithmetic::div_mod::lemma_fundamental_div_mod(k, self.stride);
        assert(self.stride * (k / self.stride) == (k / self.stride) * self.stride)
            by (nonlinear_arith);
    }

    /// The four samples of edge `e`'s line stand across it, in order, and inside
    /// the plane.
    pub proof fn lemma_line(self, e: int, i: int)
        requires
            self.blocked(),
            0 <= e < self.blocks_across() - 1,
            0 <= i < 4,
        ensures
            ({
                let u = (e + 1) * self.dim - 2 + i;
                &&& 0 <= u < self.across
                &&& self.edge_of(u) == e
                &&& self.slot_of(u) == i
                &&& self.near_edge(u)
            }),
    {
        let u = (e + 1) * self.dim - 2 + i;
        vstd::arithmetic::div_mod::lemma_fundamental_div_mod_converse(
            u + 2,
            self.dim,
            e + 1,
            i,
        );
        vstd::arithmetic::div_mod::lemma_fundamental_div_mod(self.across, self.dim);
        let n = self.blocks_across();
        assert((e + 2) * self.dim <= n * self.dim) by (nonlinear_arith)
            requires
                e + 2 <= n,
                0 <= self.dim,
        ;
        assert((e + 2) * self.dim == (e + 1) * self.dim + self.dim) by (nonlinear_arith);
        assert(n * self.dim == self.dim * n) by (nonlinear_arith);
        assert((e + 1) * self.dim >= self.dim) by (nonlinear_arith)
            requires
                e >= 0,
                self.dim >= 0,
        ;
    }

    /// A position near an edge is its slot of the edge's line.
    pub proof fn lemma_slot(self, u: int)
        requires
            self.dim >= 4,
        ensures
            u == (self.edge_of(u) + 1) * self.dim - 2 + self.slot_of(u),
            0 <= self.slot_of(u),
    {
        vstd::arithmetic::div_mod::lemma_fundamental_div_mod(u + 2, self.dim);
        assert(self.dim * ((u + 2) / self.dim) == ((u + 2) / self.dim) * self.dim)
            by (nonlinear_arith);
    }

    /// Edges are smoothed independently: one more edge does not see what was
    /// done to the others.
    pub proof fn lemma_one_more(
        self,
        p: Seq<u8>,
        how: Map<(int, int), LineFilter>,
        key: (int, int),
        f: LineFilter,
    )
        requires
            self.fits(p.len() as int),
            !how.dom().contains(key),
            self.has_edge(key.0, key.1),
        ensures
            self.filtered(self.filtered(p, how), Map::empty().insert(key, f)) == self.filtered(
                p,
                how.insert(key, f),
            ),
    {
        let q = self.filtered(p, how);
        let one = Map::<(int, int), LineFilter>::empty().insert(key, f);
        let all = how.insert(key, f);
        assert forall|k: int| 0 <= k < p.len() implies self.sample(q, one, k) == self.sample(
            p,
            all,
            k,
        ) by {
            let u = self.u_of(k);
            let v = self.v_of(k);
            if 0 <= u < self.across && 0 <= v < self.along && self.near_edge(u) && (
            v / self.dim,
            self.edge_of(u),
            ) == key {
                let e = self.edge_of(u);
                assert forall|i: int| 0 <= i < 4 implies self.line(q, e, v)[i] == self.line(
                    p,
                    e,
                    v,
                )[i] by {
                    self.lemma_line(e, i);
                    let w = (e + 1) * self.dim - 2 + i;
                    self.lemma_place(p.len() as int, w, v);
                }
                assert(self.line(q, e, v) =~= self.line(p, e, v));
            }
        }
        assert(self.filtered(q, one) =~= self.filtered(p, all));
    }

    /// A sample near an edge is at an edge of the pass.
    pub proof fn lemma_at_edge(self, u: int, v: int)
        requires
            self.blocked(),
            0 <= v < self.along,
            self.near_edge(u),
        ensures
            self.has_edge(v / self.dim, self.edge_of(u)),
    {
        vstd::arithmetic::div_mod::lemma_fundamental_div_mod(v, self.dim);
        vstd::arithmetic::div_mod::lemma_fundamental_div_mod(self.along, self.dim);
        let i = v / self.dim;
        let n = self.along / self.dim;
        assert(i < n) by (nonlinear_arith)
            requires
                self.dim * i <= v,
                v < self.dim * n,
                self.dim > 0,
        ;
        assert(0 <= i) by (nonlinear_arith)
            requires
                i == v / self.dim,
                0 <= v,
                self.dim > 0,
        ;
    }

    /// Smoothing keeps the buffer's length.
    proof fn lemma_lines_len(self, p: Seq<u8>, b: int, e: int, f: LineFilter, n: int)
        requires
            self.fits(p.len() as int),
            self.has_edge(b, e),
            n <= self.dim,
        ensures
            self.with_lines(p, b, e, f, n).len() == p.len(),
        decreases n,
    {
        if n > 0 {
            let v = b * self.dim + n - 1;
            self.lemma_lines_len(p, b, e, f, n - 1);
            lemma_block(self.along, self.dim, b);
            assert forall|i: int| 0 <= i < 4 implies 0 <= #[trigger] self.spot(e, i, v)
                < p.len() by {
                self.lemma_line(e, i);
                self.lemma_place(p.len() as int, (e + 1) * self.dim - 2 + i, v);
            }
            assert(0 <= self.spot(e, 0, v) < p.len());
            assert(0 <= self.spot(e, 1, v) < p.len());
            assert(0 <= self.spot(e, 2, v) < p.len());
            assert(0 <= self.spot(e, 3, v) < p.len());
        }
    }

    /// Lines that are left are left.
    pub proof fn lemma_left(self, p: Seq<u8>, b: int, e: int, n: int)
        ensures
            self.with_lines(p, b, e, LineFilter::Leave, n) == p,
        decreases n,
    {
        if n > 0 {
            self.lemma_left(p, b, e, n - 1);
        }
    }

    /// The edges smoothed so far do not depend on what is done at a later one.
    pub proof fn lemma_later_edge(
        self,
        p: Seq<u8>,
        how: Map<(int, int), LineFilter>,
        key: (int, int),
        f: LineFilter,
        e: int,
        b: int,
    )
        requires
            e < key.1 || e == key.1 && b <= key.0,
        ensures
            self.with_edges(p, how.insert(key, f), e, b) == self.with_edges(p, how, e, b),
        decreases e, b,
    {
        if e >= 0 && b > 0 {
            self.lemma_later_edge(p, how, key, f, e, b - 1);
        } else if e > 0 {
            self.lemma_later_edge(p, how, key, f, e - 1, self.blocks_along());
        }
    }

    /// In a plane whose rows do not overlap, the first `n` lines across an edge
    /// are smoothed as they were in front of them all.
    #[verifier::spinoff_prover]
    proof fn lemma_lines_alone(self, p: Seq<u8>, b: int, e: int, f: LineFilter, n: int, k: int)
        requires
            self.fits(p.len() as int),
            self.has_edge(b, e),
            0 <= n <= self.dim,
            0 <= k < p.len(),
        ensures
            self.with_lines(p, b, e, f, n)[k] == if self.v_of(k) < b * self.dim + n {
                self.sample(p, Map::empty().insert((b, e), f), k)
            } else {
                p[k]
            },
        decreases n,
    {
        let one = Map::<(int, int), LineFilter>::empty().insert((b, e), f);
        let len = p.len() as int;
        let u = self.u_of(k);
        if n <= 0 {
            if self.v_of(k) < b * self.dim {
                if 0 <= self.v_of(k) {
                    lemma_before_block(self.dim, b, self.v_of(k));
                }
            }
        } else {
            let v = b * self.dim + n - 1;
            let q = self.with_lines(p, b, e, f, n - 1);
            self.lemma_lines_len(p, b, e, f, n - 1);
            self.lemma_lines_alone(p, b, e, f, n - 1, k);
            lemma_block(self.along, self.dim, b);
            lemma_within_block(self.dim, b, n - 1);
            assert forall|i: int| 0 <= i < 4 implies 0 <= #[trigger] self.spot(e, i, v) < len
                && self.u_of(self.spot(e, i, v)) == (e + 1) * self.dim - 2 + i && self.v_of(
                self.spot(e, i, v),
            ) == v && q[self.spot(e, i, v)] == p[self.spot(e, i, v)] by {
                self.lemma_line(e, i);
                self.lemma_place(len, (e + 1) * self.dim - 2 + i, v);
                self.lemma_lines_alone(p, b, e, f, n - 1, self.spot(e, i, v));
            }
            assert forall|i: int| 0 <= i < 4 implies self.line(q, e, v)[i] == self.line(
                p,
                e,
                v,
            )[i] by {
                assert(q[self.spot(e, i, v)] == p[self.spot(e, i, v)]);
            }
            assert(self.line(q, e, v) =~= self.line(p, e, v));
            let s0 = self.spot(e, 0, v);
            let s1 = self.spot(e, 1, v);
            let s2 = self.spot(e, 2, v);
            let s3 = self.spot(e, 3, v);
            self.lemma_line(e, 0);
            self.lemma_line(e, 1);
            self.lemma_line(e, 2);
            self.lemma_line(e, 3);
            if self.v_of(k) == v && 0 <= u < self.across && self.near_edge(u) && self.edge_of(u)
                == e {
                self.lemma_index(len, k);
                self.lemma_slot(u);
                let t = self.slot_of(u);
                assert(t == 0 || t == 1 || t == 2 || t == 3);
                assert(k == self.spot(e, t, v));
                assert(q[k] == p[k]);
                assert(self.line(p, e, v)[t] == p[k]);
                assert(one[(b, e)] == f);
                assert(self.sample(p, one, k) == smoothed(f, self.line(p, e, v))[t]);
            } else {
                assert(k != s0 && k != s1 && k != s2 && k != s3);
                assert(self.with_line(q, e, v, f)[k] == q[k]);
            }
        }
    }

    /// In such a plane an edge is smoothed as it was.
    proof fn lemma_edge_alone(self, p: Seq<u8>, b: int, e: int, f: LineFilter)
        requires
            self.fits(p.len() as int),
            self.has_edge(b, e),
        ensures
            self.with_lines(p, b, e, f, self.dim) == self.filtered(
                p,
                Map::empty().insert((b, e), f),
            ),
    {
        let one = Map::<(int, int), LineFilter>::empty().insert((b, e), f);
        self.lemma_lines_len(p, b, e, f, self.dim);
        assert forall|k: int| 0 <= k < p.len() implies #[trigger] self.with_lines(
            p,
            b,
            e,
            f,
            self.dim,
        )[k] == self.sample(p, one, k) by {
            self.lemma_lines_alone(p, b, e, f, self.dim, k);
            let v = self.v_of(k);
            if v >= b * self.dim + self.dim && 0 <= v {
                lemma_beyond_block(self.dim, b, v);
            }
        }
        assert(self.with_lines(p, b, e, f, self.dim) =~= self.filtered(p, one));
    }

    /// What `how` tells of the edges in front of edge `e`, and of edge `e`
    /// behind the first `b` blocks along it.
    spec fn so_far(self, how: Map<(int, int), LineFilter>, e: int, b: int) -> Map<
        (int, int),
        LineFilter,
    > {
        Map::new(
            |key: (int, int)|
                how.dom().contains(key) && 0 <= key.0 < self.blocks_along() && 0 <= key.1 && (key.1
                    < e || key.1 == e && key.0 < b),
            |key: (int, int)| how[key],
        )
    }

    /// In such a plane the edges so far are smoothed as they were.
    proof fn lemma_edges_alone(
        self,
        p: Seq<u8>,
        how: Map<(int, int), LineFilter>,
        e: int,
        b: int,
    )
        requires
            self.fits(p.len() as int),
            b <= self.blocks_along(),
            e < self.blocks_across() - 1 || b <= 0 && e <= self.blocks_across() - 1,
        ensures
            self.with_edges(p, how, e, b) == self.filtered(p, self.so_far(how, e, b)),
        decreases e, b,
    {
        let now = self.so_far(how, e, b);
        if e >= 0 && b > 0 {
            let key = (b - 1, e);
            let before = self.so_far(how, e, b - 1);
            self.lemma_edges_alone(p, how, e, b - 1);
            if how.dom().contains(key) {
                let q = self.filtered(p, before);
                self.lemma_edge_alone(q, b - 1, e, how[key]);
                self.lemma_one_more(p, before, key, how[key]);
                assert(before.insert(key, how[key]) =~= now);
            } else {
                assert(before =~= now);
            }
        } else if e > 0 {
            self.lemma_edges_alone(p, how, e - 1, self.blocks_along());
            assert(self.so_far(how, e - 1, self.blocks_along()) =~= now);
        } else {
            assert(now =~= Map::empty());
            self.lemma_untouched(p);
        }
    }

    /// What a filter reaches lies inside a buffer that holds the plane.
    pub proof fn lemma_inside(self, len: int, b: int, e: int, f: LineFilter)
        requires
            self.fits(len),
            self.has_edge(b, e),
        ensures
            self.stays_inside(len, b, e, f),
    {
        assert forall|i: int, v: int|
            reaches(f, i) && b * self.dim <= v < b * self.dim + self.dim implies #[trigger] self.spot(
            e,
            i,
            v,
        ) < len by {
            lemma_block(self.along, self.dim, b);
            self.lemma_line(e, i);
            self.lemma_place(len, (e + 1) * self.dim - 2 + i, v);
        }
    }

    /// Doing nothing changes nothing.
    pub proof fn lemma_untouched(self, p: Seq<u8>)
        ensures
            self.filtered(p, Map::empty()) == p,
    {
        assert(self.filtered(p, Map::empty()) =~= p);
    }
}

/// Where the rows of a plane do not overlap, no edge sees what was done at
/// another: smoothing them in turn gives what smoothing them all at once does.
pub proof fn edges_do_not_meet(p: Pass, plane: Seq<u8>, how: Map<(int, int), LineFilter>)
    requires
        p.fits(plane.len() as int),
    ensures
        p.in_turn(plane, how) == p.filtered(plane, how),
{
    let last = p.blocks_across() - 1;
    let all = p.so_far(how, last, 0);
    assert(0 <= p.blocks_along()) by (nonlinear_arith)
        requires
            p.blocks_along() == p.along / p.dim,
            0 <= p.along,
            p.dim > 0,
    ;
    p.lemma_edges_alone(plane, how, last, 0);
    assert forall|k: int| 0 <= k < plane.len() implies p.sample(plane, all, k) == p.sample(
        plane,
        how,
        k,
    ) by {
        let u = p.u_of(k);
        let v = p.v_of(k);
        if 0 <= u < p.across && 0 <= v < p.along && p.near_edge(u) {
            p.lemma_at_edge(u, v);
        }
    }
    assert(p.filtered(plane, all) =~= p.filtered(plane, how));
}

/// A pass leaves every sample that is not near an edge, or whose edge is left,
/// as it was.
pub proof fn only_edges_are_smoothed(
    p: Pass,
    plane: Seq<u8>,
    how: Map<(int, int), LineFilter>,
    k: int,
)
    requires
        0 <= k < plane.len(),
        !p.near_edge(p.u_of(k)) || how[(p.v_of(k) / p.dim, p.edge_of(p.u_of(k)))]
            == LineFilter::Leave,
        p.fits(plane.len() as int),
    ensures
        p.filtered(plane, how)[k] == plane[k],
{
    let u = p.u_of(k);
    if 0 <= u < p.across && 0 <= p.v_of(k) < p.along && p.near_edge(u) {
        p.lemma_index(plane.len() as int, k);
        p.lemma_slot(u);
    }
}

/// A plane of equal samples is not changed by a pass, whatever is done at its
/// edges.
pub proof fn flat_planes_stay(p: Pass, plane: Seq<u8>, how: Map<(int, int), LineFilter>, s: u8)
    requires
        p.fits(plane.len() as int),
        forall|k: int| 0 <= k < plane.len() ==> #[trigger] plane[k] == s,
        forall|key: (int, int)| #[trigger]
            how.dom().contains(key) ==> (how[key] matches LineFilter::Ramp { strength } ==> 0
                <= strength),
    ensures
        p.filtered(plane, how) == plane,
{
    assert forall|k: int| 0 <= k < plane.len() implies p.sample(plane, how, k) == plane[k] by {
        let u = p.u_of(k);
        let v = p.v_of(k);
        let key = (v / p.dim, p.edge_of(u));
        if 0 <= u < p.across && 0 <= v < p.along && p.near_edge(u) && how.dom().contains(key) {
            let e = p.edge_of(u);
            let line = p.line(plane, e, v);
            assert forall|i: int| 0 <= i < 4 implies #[trigger] line[i] == s by {
                p.lemma_line(e, i);
                p.lemma_place(plane.len() as int, (e + 1) * p.dim - 2 + i, v);
            }
            flat_lines_stay(how[key], line);
            p.lemma_slot(u);
        }
    }
    assert(p.filtered(plane, how) =~= plane);
}

/// The index of a sample.
fn index_of(stride: usize, upright: bool, u: usize, v: usize, Ghost(p): Ghost<Pass>) -> (k: usize)
    requires
        p.stride == stride,
        p.upright == upright,
        p.place(u as int, v as int) <= usize::MAX,
    ensures
        k == p.place(u as int, v as int),
{
    proof {
        assert(0 <= v * stride) by (nonlinear_arith)
            requires
                0 <= v,
                0 <= stride,
        ;
        assert(0 <= u * stride) by (nonlinear_arith)
            requires
                0 <= u,
                0 <= stride,
        ;
    }
    if upright {
        v * stride + u
    } else {
        u * stride + v
    }
}

/// Smooth the line across edge `e` at position `v` along it, which begins at
/// position `u`.
fn smooth_at(
    plane: &mut [u8],
    stride: usize,
    upright: bool,
    u: usize,
    v: usize,
    f: LineFilter,
    Ghost(p): Ghost<Pass>,
    Ghost(e): Ghost<int>,
)
    requires
        p.stride == stride,
        p.upright == upright,
        u == (e + 1) * p.dim - 2,
        u + 3 <= usize::MAX,
        forall|i: int|
            reaches(f, i) ==> #[trigger] p.spot(e, i, v as int) < old(plane)@.len(),
        f matches LineFilter::Ramp { strength } ==> 0 <= strength,
    ensures
        final(plane)@ == p.with_line(old(plane)@, e, v as int, f),
{
    let ghost line0 = p.line(plane@, e, v as int);
    assert(plane.len() == plane@.len());
    assert(reaches(f, 0) ==> p.spot(e, 0, v as int) < plane@.len());
    assert(reaches(f, 1) ==> p.spot(e, 1, v as int) < plane@.len());
    assert(reaches(f, 2) ==> p.spot(e, 2, v as int) < plane@.len());
    assert(reaches(f, 3) ==> p.spot(e, 3, v as int) < plane@.len());
    match f {
        LineFilter::Leave => {},
        LineFilter::Blend => {
            let k1: usize = index_of(stride, upright, u + 1, v, Ghost(p));
            let k2: usize = index_of(stride, upright, u + 2, v, Ghost(p));
            let near: u8 = plane[k1];
            let far: u8 = plane[k2];
            assert(near == line0[1] && far == line0[2]);
            plane[k1] = blend(near, far);
            plane[k2] = blend(far, near);
        },
        LineFilter::Ramp { strength } => {
            let k0: usize = index_of(stride, upright, u, v, Ghost(p));
            let k1: usize = index_of(stride, upright, u + 1, v, Ghost(p));
            let k2: usize = index_of(stride, upright, u + 2, v, Ghost(p));
            let k3: usize = index_of(stride, upright, u + 3, v, Ghost(p));
            let mut line: [u8; 4] = [plane[k0], plane[k1], plane[k2], plane[k3]];
            assert(line@ =~= line0);
            apply_edge_samples(&mut line, strength);
            plane[k0] = line[0];
            plane[k1] = line[1];
            plane[k2] = line[2];
            plane[k3] = line[3];
        },
    }
}

/// Smooth the lines across edge `e` behind block `b` along it.
#[verifier::spinoff_prover]
fn smooth_edge(
    plane: &mut [u8],
    stride: usize,
    upright: bool,
    dim: usize,
    b: usize,
    e: usize,
    f: LineFilter,
    Ghost(p): Ghost<Pass>,
)
    requires
        p.blocked(),
        p.stride == stride,
        p.upright == upright,
        p.dim == dim,
        p.across <= usize::MAX,
        p.along <= usize::MAX,
        p.has_edge(b as int, e as int),
        p.stays_inside(old(plane)@.len() as int, b as int, e as int, f),
        f matches LineFilter::Ramp { strength } ==> 0 <= strength,
    ensures
        final(plane)@ == p.with_lines(old(plane)@, b as int, e as int, f, p.dim),
        final(plane)@.len() == old(plane)@.len(),
{
    let ghost p0 = plane@;
    if let LineFilter::Leave = f {
        proof {
            p.lemma_left(p0, b as int, e as int, p.dim);
        }
        return ;
    }
    proof {
        p.lemma_line(e as int, 0);
        p.lemma_line(e as int, 3);
        lemma_block(p.along, p.dim, b as int);
    }
    let u0: usize = (e + 1) * dim - 2;
    let v0: usize = b * dim;
    let mut i: usize = 0;
    while i < dim
        invariant
            p.stride == stride,
            p.upright == upright,
            p.dim == dim,
            p.along <= usize::MAX,
            p.stays_inside(p0.len() as int, b as int, e as int, f),
            f matches LineFilter::Ramp { strength } ==> 0 <= strength,
            u0 == (e + 1) * dim - 2,
            u0 + 3 <= usize::MAX,
            v0 == b * dim,
            v0 + dim <= p.along,
            i <= dim,
            plane@.len() == p0.len(),
            plane@ == p.with_lines(p0, b as int, e as int, f, i as int),
        decreases dim - i,
    {
        smooth_at(plane, stride, upright, u0, v0 + i, f, Ghost(p), Ghost(e as int));
        i = i + 1;
    }
}

/// `how` holds an answer of `decide` for edge `e` behind block `b` along it.
pub open spec fn settled<F: Fn((usize, usize), (usize, usize)) -> LineFilter>(
    decide: &F,
    p: Pass,
    how: Map<(int, int), LineFilter>,
    b: usize,
    e: usize,
) -> bool {
    how.dom().contains((b as int, e as int)) && call_ensures(
        *decide,
        p.pair(b, e),
        how[(b as int, e as int)],
    )
}

/// Smooth all edges of one direction, each as `decide` says.
#[verifier::spinoff_prover]
pub(crate) fn filter_pass<F: Fn((usize, usize), (usize, usize)) -> LineFilter>(
    plane: &mut [u8],
    stride: usize,
    upright: bool,
    across: usize,
    along: usize,
    dim: usize,
    decide: &F,
) -> (how: Ghost<Map<(int, int), LineFilter>>)
    requires
        ({
            let p = pass(stride, upright, across, along, dim);
            &&& p.blocked()
            &&& forall|b: usize, e: usize|
                p.has_edge(b as int, e as int) ==> #[trigger] call_requires(*decide, p.pair(b, e))
            &&& forall|b: usize, e: usize, f: LineFilter|
                p.has_edge(b as int, e as int) && #[trigger] call_ensures(*decide, p.pair(b, e), f)
                    ==> p.may_smooth(old(plane)@.len() as int, b as int, e as int, f)
        }),
    ensures
        ({
            let p = pass(stride, upright, across, along, dim);
            &&& final(plane)@ == p.in_turn(old(plane)@, how@)
            &&& final(plane)@.len() == old(plane)@.len()
            &&& forall|b: usize, e: usize|
                p.has_edge(b as int, e as int) ==> #[trigger] settled(decide, p, how@, b, e)
        }),
{
    let ghost p = pass(stride, upright, across, along, dim);
    let ghost p0 = plane@;
    let ghost mut how = Map::<(int, int), LineFilter>::empty();
    let edges: usize = if across / dim == 0 {
        0
    } else {
        across / dim - 1
    };
    let blocks: usize = along / dim;
    let mut e: usize = 0;
    while e < edges
        invariant
            p == pass(stride, upright, across, along, dim),
            p.blocked(),
            plane@.len() == p0.len(),
            blocks == p.blocks_along(),
            edges == if p.blocks_across() == 0 {
                0
            } else {
                p.blocks_across() - 1
            },
            e <= edges,
            plane@ == p.with_edges(p0, how, e as int, 0),
            forall|b: usize, g: usize|
                p.has_edge(b as int, g as int) ==> #[trigger] call_requires(*decide, p.pair(b, g)),
            forall|b: usize, g: usize, f: LineFilter|
                p.has_edge(b as int, g as int) && #[trigger] call_ensures(*decide, p.pair(b, g), f)
                    ==> p.may_smooth(p0.len() as int, b as int, g as int, f),
            forall|key: (int, int)| #[trigger]
                how.dom().contains(key) ==> 0 <= key.0 < blocks && 0 <= key.1 < e,
            forall|b: usize, g: usize|
                b < blocks && g < e ==> #[trigger] settled(decide, p, how, b, g),
        decreases edges - e,
    {
        let mut b: usize = 0;
        while b < blocks
            invariant
                p == pass(stride, upright, across, along, dim),
                p.blocked(),
                plane@.len() == p0.len(),
                blocks == p.blocks_along(),
                e < edges,
                edges == p.blocks_across() - 1,
                b <= blocks,
                plane@ == p.with_edges(p0, how, e as int, b as int),
                forall|c: usize, g: usize|
                    p.has_edge(c as int, g as int) ==> #[trigger] call_requires(
                        *decide,
                        p.pair(c, g),
                    ),
                forall|c: usize, g: usize, f: LineFilter|
                    p.has_edge(c as int, g as int) && #[trigger] call_ensures(
                        *decide,
                        p.pair(c, g),
                        f,
                    ) ==> p.may_smooth(p0.len() as int, c as int, g as int, f),
                forall|key: (int, int)| #[trigger]
                    how.dom().contains(key) ==> 0 <= key.0 < blocks && 0 <= key.1 <= e && (key.1
                        < e || key.0 < b),
                forall|c: usize, g: usize|
                    (c < blocks && g < e || c < b && g == e) ==> #[trigger] settled(
                        decide,
                        p,
                        how,
                        c,
                        g,
                    ),
            decreases blocks - b,
        {
            assert(p.has_edge(b as int, e as int));
            assert(call_requires(*decide, p.pair(b, e)));
            let f: LineFilter = if upright {
                decide((e, b), (e + 1, b))
            } else {
                decide((b, e), (b, e + 1))
            };
            assert(call_ensures(*decide, p.pair(b, e), f));
            smooth_edge(plane, stride, upright, dim, b, e, f, Ghost(p));
            proof {
                p.lemma_later_edge(
                    p0,
                    how,
                    (b as int, e as int),
                    f,
                    e as int,
                    b as int,
                );
                let before = how;
                how = how.insert((b as int, e as int), f);
                assert forall|c: usize, g: usize|
                    (c < blocks && g < e || c < b + 1 && g == e) implies #[trigger] settled(
                    decide,
                    p,
                    how,
                    c,
                    g,
                ) by {
                    if c != b || g != e {
                        assert(settled(decide, p, before, c, g));
                    }
                }
            }
            b = b + 1;
        }
        e = e + 1;
    }
    Ghost(how)
}

/// A pass with machine numbers.
pub open spec fn pass(
    stride: usize,
    upright: bool,
    across: usize,
    along: usize,
    dim: usize,
) -> Pass {
    Pass {
        stride: stride as int,
        upright,
        across: across as int,
        along: along as int,
        dim: dim as int,
    }
}

/// The pass over the horizontal edges of a plane.
pub open spec fn rows_pass(width: usize, height: usize, stride: usize, dim: usize) -> Pass {
    pass(stride, false, height, width, dim)
}

/// The pass over the vertical edges of a plane.
pub open spec fn columns_pass(width: usize, height: usize, stride: usize, dim: usize) -> Pass {
    pass(stride, true, width, height, dim)
}

/// A plane of blocks of side `dim` fits a buffer of `len` samples; its rows may
/// overlap.
pub open spec fn plane_fits(
    width: usize,
    height: usize,
    stride: usize,
    dim: usize,
    len: nat,
) -> bool {
    &&& width % dim == 0
    &&& height % dim == 0
    &&& stride * height <= len
}

/// The line filter that an edge condition asks for.
pub open spec fn deblocking_of(c: EdgeCondition) -> LineFilter {
    match c {
        EdgeCondition::Filter { strength } => LineFilter::Ramp { strength },
        EdgeCondition::Skip => LineFilter::Leave,
    }
}

/// `how` follows an answer of a condition function for edge `e` behind block
/// `b` along it.
pub open spec fn deblocked_as<F: Fn((usize, usize), (usize, usize)) -> EdgeCondition>(
    f: F,
    p: Pass,
    how: Map<(int, int), LineFilter>,
    b: usize,
    e: usize,
) -> bool {
    how.dom().contains((b as int, e as int)) && exists|c: EdgeCondition|
        call_ensures(f, p.pair(b, e), c) && how[(b as int, e as int)] == #[trigger] deblocking_of(
            c,
        )
}

/// `how` follows the answers of a condition function for every edge of a pass.
pub open spec fn deblocking_decided<
    F: Fn((usize, usize), (usize, usize)) -> EdgeCondition,
>(f: F, p: Pass, how: Map<(int, int), LineFilter>) -> bool {
    forall|b: usize, e: usize|
        p.has_edge(b as int, e as int) ==> #[trigger] deblocked_as(f, p, how, b, e)
}

/// A condition function may be asked about every edge of a pass, and asks for
/// no negative strength.
pub open spec fn deblocking_condition<
    F: Fn((usize, usize), (usize, usize)) -> EdgeCondition,
>(f: F, p: Pass) -> bool {
    &&& forall|b: usize, e: usize|
        p.has_edge(b as int, e as int) ==> #[trigger] call_requires(f, p.pair(b, e))
    &&& forall|b: usize, e: usize, c: EdgeCondition|
        p.has_edge(b as int, e as int) && #[trigger] call_ensures(f, p.pair(b, e), c) ==> (
        c matches EdgeCondition::Filter { strength } ==> 0 <= strength)
}

/// Whatever a condition function asks for along the edges of a pass stays
/// inside a buffer of `len` samples.
pub open spec fn deblocking_inside<
    F: Fn((usize, usize), (usize, usize)) -> EdgeCondition,
>(f: F, p: Pass, len: nat) -> bool {
    forall|b: usize, e: usize, c: EdgeCondition|
        p.has_edge(b as int, e as int) && #[trigger] call_ensures(f, p.pair(b, e), c)
            ==> p.stays_inside(len as int, b as int, e as int, deblocking_of(c))
}

/// A condition function may be asked about the edge between two blocks.
pub open spec fn may_ask<C, F: Fn((usize, usize), (usize, usize)) -> C>(
    f: &F,
    b1: (usize, usize),
    b2: (usize, usize),
) -> bool {
    call_requires(*f, (b1, b2))
}

/// A condition function may answer `c` for the edge between two blocks.
pub open spec fn answers<C, F: Fn((usize, usize), (usize, usize)) -> C>(
    f: &F,
    b1: (usize, usize),
    b2: (usize, usize),
    c: C,
) -> bool {
    call_ensures(*f, (b1, b2), c)
}

/// Run the deblocking filter over a plane: all horizontal block edges, then all
/// vertical ones. The condition is asked once for each edge, with the columns
/// and rows of the block in front of it and the block behind it.
///
/// Rows may be longer than they lie apart; they then share samples, and no
/// edge may be filtered whose lines leave the buffer.
pub fn deblock_plane<F: Fn((usize, usize), (usize, usize)) -> EdgeCondition>(
    plane: &mut [u8],
    width: usize,
    height: usize,
    stride: usize,
    condition_for_edge: F,
)
    requires
        plane_fits(width, height, stride, 8, old(plane)@.len()),
        deblocking_condition(condition_for_edge, rows_pass(width, height, stride, 8)),
        deblocking_condition(condition_for_edge, columns_pass(width, height, stride, 8)),
        width <= stride || deblocking_inside(
            condition_for_edge,
            rows_pass(width, height, stride, 8),
            old(plane)@.len(),
        ) && deblocking_inside(
            condition_for_edge,
            columns_pass(width, height, stride, 8),
            old(plane)@.len(),
        ),
    ensures
        exists|rows: Map<(int, int), LineFilter>, columns: Map<(int, int), LineFilter>|
            #![trigger deblocking_decided(
                condition_for_edge,
                rows_pass(width, height, stride, 8),
                rows,
            ), deblocking_decided(
                condition_for_edge,
                columns_pass(width, height, stride, 8),
                columns,
            )]
            deblocking_decided(condition_for_edge, rows_pass(width, height, stride, 8), rows)
                && deblocking_decided(
                condition_for_edge,
                columns_pass(width, height, stride, 8),
                columns,
            ) && final(plane)@ == columns_pass(width, height, stride, 8).in_turn(
                rows_pass(width, height, stride, 8).in_turn(old(plane)@, rows),
                columns,
            ),
{
    let ghost rp = rows_pass(width, height, stride, 8);
    let ghost cp = columns_pass(width, height, stride, 8);
    let asked: &F = &condition_for_edge;
    let decide = |b1: (usize, usize), b2: (usize, usize)| -> (r: LineFilter)
        requires
            may_ask(asked, b1, b2),
        ensures
            exists|c: EdgeCondition|
                answers(asked, b1, b2, c) && r == #[trigger] deblocking_of(c),
        {
            let c: EdgeCondition = asked(b1, b2);
            assert(answers(asked, b1, b2, c));
            let r: LineFilter = match c {
                EdgeCondition::Filter { strength } => LineFilter::Ramp { strength },
                EdgeCondition::Skip => LineFilter::Leave,
            };
            assert(r == deblocking_of(c));
            r
        };
    proof {
        let len = plane@.len() as int;
        assert(stride * height == height * stride) by (nonlinear_arith);
        assert forall|b: usize, e: usize, f: LineFilter|
            rp.has_edge(b as int, e as int) && #[trigger] call_ensures(decide, rp.pair(b, e), f)
                implies rp.may_smooth(len, b as int, e as int, f) by {
            if width <= stride {
                rp.lemma_inside(len, b as int, e as int, f);
            }
        }
        assert forall|b: usize, e: usize, f: LineFilter|
            cp.has_edge(b as int, e as int) && #[trigger] call_ensures(decide, cp.pair(b, e), f)
                implies cp.may_smooth(len, b as int, e as int, f) by {
            if width <= stride {
                cp.lemma_inside(len, b as int, e as int, f);
            }
        }
    }
    let rows: Ghost<Map<(int, int), LineFilter>> = filter_pass(
        plane,
        stride,
        false,
        height,
        width,
        8,
        &decide,
    );
    let columns: Ghost<Map<(int, int), LineFilter>> = filter_pass(
        plane,
        stride,
        true,
        width,
        height,
        8,
        &decide,
    );
    assert forall|b: usize, e: usize| rp.has_edge(b as int, e as int) implies #[trigger] deblocked_as(
        condition_for_edge,
        rp,
        rows@,
        b,
        e,
    ) by {
        assert(settled(&decide, rp, rows@, b, e));
    }
    assert forall|b: usize, e: usize| cp.has_edge(b as int, e as int) implies #[trigger] deblocked_as(
        condition_for_edge,
        cp,
        columns@,
        b,
        e,
    ) by {
        assert(settled(&decide, cp, columns@, b, e));
    }
    assert(deblocking_decided(condition_for_edge, rp, rows@));
    assert(deblocking_decided(condition_for_edge, cp, columns@));
}

/// A block lies inside its plane.
proof fn lemma_block(along: int, dim: int, b: int)
    requires
        dim > 0,
        along % dim == 0,
        0 <= b < along / dim,
    ensures
        0 <= b * dim,
        b * dim + dim <= along,
{
    vstd::arithmetic::div_mod::lemma_fundamental_div_mod(along, dim);
    let n = along / dim;
    assert((b + 1) * dim <= n * dim) by (nonlinear_arith)
        requires
            b + 1 <= n,
            0 <= dim,
    ;
    assert((b + 1) * dim == b * dim + dim) by (nonlinear_arith);
    assert(n * dim == dim * n) by (nonlinear_arith);
    assert(0 <= b * dim) by (nonlinear_arith)
        requires
            0 <= b,
            0 <= dim,
    ;
}

/// The block of a position inside it.
proof fn lemma_within_block(dim: int, b: int, i: int)
    requires
        0 <= i < dim,
        0 <= b,
    ensures
        (b * dim + i) / dim == b,
{
    vstd::arithmetic::div_mod::lemma_fundamental_div_mod_converse(b * dim + i, dim, b, i);
}

/// A position behind a block is in a later one.
proof fn lemma_beyond_block(dim: int, b: int, v: int)
    requires
        dim > 0,
        0 <= b,
        v >= b * dim + dim,
    ensures
        v / dim > b,
{
    assert((b + 1) * dim == b * dim + dim) by (nonlinear_arith);
    vstd::arithmetic::div_mod::lemma_div_is_ordered((b + 1) * dim, v, dim);
    vstd::arithmetic::div_mod::lemma_div_by_multiple(b + 1, dim);
}

/// A position in front of a block is in an earlier one.
proof fn lemma_before_block(dim: int, b: int, v: int)
    requires
        dim > 0,
        0 <= v < b * dim,
    ensures
        v / dim < b,
{
    assert(b * dim == dim * b) by (nonlinear_arith);
    vstd::arithmetic::div_mod::lemma_multiply_divide_lt(v, dim, b);
}

} // verus!
