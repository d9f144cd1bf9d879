//! Rate control: the hypothetical reference decoder's buffer, and a governor
//! that picks each picture's quantiser.
//!
//! [`HrdModel`] follows the buffer that a decoder on a channel of constant rate
//! would need. [`RateController`] moves the quantiser with a virtual buffer
//! that integrates how far pictures miss their budget.

use vstd::prelude::*;

verus! {

/// The reference decoder's parameters.
#[derive(Debug, Clone, Copy, PartialEq, Eq, Structural)]
pub struct HrdParams {
    /// The bits that the channel delivers in one picture clock interval.
    pub bits_per_tick: u64,
    /// The occupancy that the buffer may not reach just after a removal.
    pub b_max: u64,
}

impl HrdParams {
    /// The smallest parameters for a constant-rate channel of `rate_bps` bits
    /// per second at `pcf` pictures per second: the buffer bound is four
    /// intervals' bits. A picture clock of 0 counts as 1.
    pub fn for_cbr(rate_bps: u64, pcf: u64) -> (p: HrdParams)
        requires
            4 * (rate_bps as int / at_least_one(pcf as int)) <= u64::MAX,
        ensures
            p.bits_per_tick == rate_bps as int / at_least_one(pcf as int),
            p.b_max == 4 * p.bits_per_tick,
    {
        let clock: u64 = if pcf < 1 {
            1
        } else {
            pcf
        };
        let bits_per_tick: u64 = rate_bps / clock;
        HrdParams { bits_per_tick, b_max: 4 * bits_per_tick }
    }
}

/// What became of one coded picture in the buffer.
#[derive(Debug, Clone, Copy, PartialEq, Eq, Structural)]
pub struct HrdPictureOutcome {
    /// The bits in the buffer just after the picture was removed.
    pub occupancy_after_removal: u64,
    /// Whether that occupancy is below the bound.
    pub conformant: bool,
    /// The picture clock intervals that passed before the picture was complete.
    pub ticks_waited: u64,
}

/// The reference decoder's buffer.
#[derive(Debug, Clone, Copy)]
pub struct HrdModel {
    params: HrdParams,
    occupancy: u64,
    max_after_removal: u64,
}

/// `n`, or 1 if that is more.
pub open spec fn at_least_one(n: int) -> int {
    if n < 1 {
        1
    } else {
        n
    }
}

/// The intervals until a picture of `bits` bits is complete, where `held` bits
/// are there already and `per_tick` more come in each interval: as few as do,
/// but at least one.
pub open spec fn ticks_until_complete(held: int, per_tick: int, bits: int) -> int {
    let missing = if bits > held {
        bits - held
    } else {
        0
    };
    let rate = at_least_one(per_tick);
    at_least_one((missing + rate - 1) / rate)
}

/// The bits that are left when that picture has been removed.
pub open spec fn left_after_removal(held: int, per_tick: int, bits: int) -> int {
    held + ticks_until_complete(held, per_tick, bits) * per_tick - bits
}

impl HrdModel {
    /// The parameters that the model was made with.
    pub closed spec fn spec_params(&self) -> HrdParams {
        self.params
    }

    /// The bits in the buffer.
    pub closed spec fn held(&self) -> int {
        self.occupancy as int
    }

    /// The largest occupancy seen just after a removal.
    pub closed spec fn peak(&self) -> int {
        self.max_after_removal as int
    }

    /// A model with an empty buffer.
    pub fn new(params: HrdParams) -> (m: HrdModel)
        ensures
            m.spec_params() == params,
            m.held() == 0,
            m.peak() == 0,
    {
        HrdModel { params, occupancy: 0, max_after_removal: 0 }
    }

    /// The occupancy just after the latest removal.
    pub fn occupancy(&self) -> (n: u64)
        ensures
            n == self.held(),
    {
        self.occupancy
    }

    /// The largest occupancy seen just after a removal.
    pub fn max_occupancy_after_removal(&self) -> (n: u64)
        ensures
            n == self.peak(),
    {
        self.max_after_removal
    }

    /// Pass a coded picture of `bits` bits through the buffer: it is removed at
    /// the first picture clock tick at which it is complete. A channel that
    /// delivers nothing cannot complete a picture that the buffer lacks.
    pub fn push_picture(&mut self, bits: u64) -> (out: HrdPictureOutcome)
        requires
            ({
                let per_tick = old(self).spec_params().bits_per_tick as int;
                let ticks = ticks_until_complete(old(self).held(), per_tick, bits as int);
                old(self).held() + ticks * per_tick <= u64::MAX
            }),
            old(self).spec_params().bits_per_tick == 0 ==> bits <= old(self).held(),
        ensures
            ({
                let p = old(self).spec_params();
                let per_tick = p.bits_per_tick as int;
                let left = left_after_removal(old(self).held(), per_tick, bits as int);
                &&& final(self).spec_params() == p
                &&& final(self).held() == left
                &&& final(self).peak() == if left > old(self).peak() {
                    left
                } else {
                    old(self).peak()
                }
                &&& out.occupancy_after_removal == left
                &&& out.conformant == (left < p.b_max)
                &&& out.ticks_waited == ticks_until_complete(old(self).held(), per_tick, bits as int)
            }),
    {
        let per_tick: u64 = self.params.bits_per_tick;
        let missing: u64 = if bits > self.occupancy {
            bits - self.occupancy
        } else {
            0
        };
        let rate: u64 = if per_tick < 1 {
            1
        } else {
            per_tick
        };
        proof {
            lemma_ceiling(missing as int, rate as int);
            completion_is_the_first_possible(self.occupancy as int, per_tick as int, bits as int);
        }
        let whole: u64 = missing / rate;
        let rounded: u64 = if missing % rate == 0 {
            whole
        } else {
            whole + 1
        };
        let ticks: u64 = if rounded < 1 {
            1
        } else {
            rounded
        };
        let left: u64 = self.occupancy + ticks * per_tick - bits;
        self.occupancy = left;
        if left > self.max_after_removal {
            self.max_after_removal = left;
        }
        HrdPictureOutcome {
            occupancy_after_removal: left,
            conformant: left < self.params.b_max,
            ticks_waited: ticks,
        }
    }
}

/// Rounding a quotient up.
proof fn lemma_ceiling(n: int, d: int)
    requires
        0 <= n,
        1 <= d,
    ensures
        (n + d - 1) / d == if n % d == 0 {
            n / d
        } else {
            n / d + 1
        },
        n <= (n + d - 1) / d * d,
        ((n + d - 1) / d - 1) * d < n,
        n / d < n || d == 1 || n == 0,
{
    let q = n / d;
    let r = n % d;
    vstd::arithmetic::div_mod::lemma_fundamental_div_mod(n, d);
    assert(d * q == q * d) by (nonlinear_arith);
    if r == 0 {
        assert((n + d - 1) / d == q) by {
            vstd::arithmetic::div_mod::lemma_fundamental_div_mod_converse(n + d - 1, d, q, d - 1);
        }
        assert((q - 1) * d == q * d - d) by (nonlinear_arith);
    } else {
        assert((q + 1) * d == q * d + d) by (nonlinear_arith);
        assert((n + d - 1) / d == q + 1) by {
            vstd::arithmetic::div_mod::lemma_fundamental_div_mod_converse(
                n + d - 1,
                d,
                q + 1,
                r - 1,
            );
        }
    }
    assert(n / d < n || d == 1 || n == 0) by (nonlinear_arith)
        requires
            0 <= n,
            1 <= d,
    ;
}

/// A picture leaves the buffer at the first tick at which it is complete: it
/// is complete then, and it was not one tick before unless that would be none.
pub proof fn completion_is_the_first_possible(held: int, per_tick: int, bits: int)
    requires
        0 <= held,
        0 <= per_tick,
        0 <= bits,
        per_tick == 0 ==> bits <= held,
    ensures
        ({
            let ticks = ticks_until_complete(held, per_tick, bits);
            &&& ticks >= 1
            &&& bits <= held + ticks * per_tick
            &&& ticks > 1 ==> held + (ticks - 1) * per_tick < bits
            &&& left_after_removal(held, per_tick, bits) >= 0
            &&& ticks > 1 ==> left_after_removal(held, per_tick, bits) < per_tick
        }),
{
    let ticks = ticks_until_complete(held, per_tick, bits);
    let missing = if bits > held {
        bits - held
    } else {
        0
    };
    let rate = at_least_one(per_tick);
    lemma_ceiling(missing, rate);
    assert((ticks - 1) * per_tick == ticks * per_tick - per_tick) by (nonlinear_arith);
    assert(0 <= ticks * per_tick) by (nonlinear_arith)
        requires
            0 <= ticks,
            0 <= per_tick,
    ;
    if missing == 0 {
        assert(ticks == 1);
    }
}

/// Pictures of exactly one interval's bits leave an empty buffer empty, one
/// interval each.
pub proof fn on_budget_pictures_leave_the_buffer_empty(per_tick: int)
    requires
        1 <= per_tick,
    ensures
        ticks_until_complete(0, per_tick, per_tick) == 1,
        left_after_removal(0, per_tick, per_tick) == 0,
{
    lemma_ceiling(per_tick, per_tick);
    vstd::arithmetic::div_mod::lemma_div_by_self(per_tick);
    vstd::arithmetic::div_mod::lemma_mod_self_0(per_tick);
    assert(1 * per_tick == per_tick);
}

/// Pictures of at least one interval's bits each keep the occupancy below one
/// interval's bits, and so below the bound of four.
pub proof fn pictures_that_fill_the_channel_conform(held: int, per_tick: int, bits: int)
    requires
        0 <= held < per_tick,
        per_tick <= bits,
    ensures
        0 <= left_after_removal(held, per_tick, bits) < per_tick,
{
    completion_is_the_first_possible(held, per_tick, bits);
    let ticks = ticks_until_complete(held, per_tick, bits);
    if ticks == 1 {
        assert(1 * per_tick == per_tick);
    }
}

/// A governor of the quantiser over a virtual buffer.
#[derive(Debug, Clone, Copy)]
pub struct RateController {
    target: i64,
    fullness: i64,
    quant: u8,
}

/// `v` between `low` and `high`.
pub open spec fn clamped(v: int, low: int, high: int) -> int {
    if v < low {
        low
    } else if v > high {
        high
    } else {
        v
    }
}

/// The virtual buffer after a picture of `bits` bits: it moves by how far the
/// picture missed the target, and stays between one target below empty and two
/// above.
pub open spec fn next_fullness(target: int, fullness: int, bits: int) -> int {
    clamped(fullness + bits - target, -target, 2 * target)
}

/// The quantiser that follows `quant`: in proportion to the virtual buffer, no
/// more than four steps away, at least one step away where the buffer is at one
/// of its ends, and always legal.
pub open spec fn next_quantiser(target: int, fullness: int, quant: int) -> int {
    let scaled = quant * (2 * target + fullness) / (2 * target);
    let stepped = clamped(scaled, quant - 4, quant + 4);
    let nudged = if fullness >= 2 * target && stepped == quant {
        stepped + 1
    } else if fullness <= -target && stepped == quant {
        stepped - 1
    } else {
        stepped
    };
    clamped(nudged, 1, 31)
}

impl RateController {
    /// The target is positive, the virtual buffer within its bounds, and the
    /// quantiser legal.
    #[verifier::type_invariant]
    spec fn wf(self) -> bool {
        &&& 1 <= self.target <= u32::MAX
        &&& -self.target <= self.fullness <= 2 * self.target
        &&& 1 <= self.quant <= 31
    }

    /// The bits that a picture should take.
    pub closed spec fn budget(&self) -> int {
        self.target as int
    }

    /// The virtual buffer, positive where pictures have taken too much.
    pub closed spec fn backlog(&self) -> int {
        self.fullness as int
    }

    /// The quantiser for the next picture.
    pub closed spec fn chosen(&self) -> int {
        self.quant as int
    }

    /// A governor that aims at `target_bits_per_picture`, at least one, and
    /// starts at `initial_quant`, moved into its range.
    pub fn new(target_bits_per_picture: u32, initial_quant: u8) -> (c: RateController)
        ensures
            c.budget() == if target_bits_per_picture == 0 {
                1
            } else {
                target_bits_per_picture as int
            },
            c.backlog() == 0,
            c.chosen() == clamped(initial_quant as int, 1, 31),
    {
        let target: i64 = if target_bits_per_picture < 1 {
            1
        } else {
            target_bits_per_picture as i64
        };
        let quant: u8 = if initial_quant < 1 {
            1
        } else if initial_quant > 31 {
            31
        } else {
            initial_quant
        };
        RateController { target, fullness: 0, quant }
    }

    /// The quantiser for the next picture.
    pub fn next_quant(&self) -> (q: u8)
        ensures
            q == self.chosen(),
            1 <= q <= 31,
    {
        proof {
            use_type_invariant(self);
        }
        self.quant
    }

    /// The virtual buffer, positive where pictures have taken too much.
    pub fn fullness(&self) -> (w: i64)
        ensures
            w == self.backlog(),
            -self.budget() <= w <= 2 * self.budget(),
    {
        proof {
            use_type_invariant(self);
        }
        self.fullness
    }

    /// Take account of a coded picture of `bits` bits.
    pub fn update(&mut self, bits: u64)
        ensures
            final(self).budget() == old(self).budget(),
            final(self).backlog() == next_fullness(
                old(self).budget(),
                old(self).backlog(),
                bits as int,
            ),
            final(self).chosen() == next_quantiser(
                old(self).budget(),
                final(self).backlog(),
                old(self).chosen(),
            ),
    {
        proof {
            use_type_invariant(&*self);
        }
        let target: i64 = self.target;
        let quant: i64 = self.quant as i64;
        let moved: i64 = if bits >= (4 * target) as u64 {
            2 * target
        } else {
            self.fullness + bits as i64 - target
        };
        let fullness: i64 = if moved < -target {
            -target
        } else if moved > 2 * target {
            2 * target
        } else {
            moved
        };
        self.fullness = fullness;
        let weight: u64 = (2 * target + fullness) as u64;
        assert(quant * weight <= 31 * (4 * 0xffff_ffff)) by (nonlinear_arith)
            requires
                0 <= quant <= 31,
                0 <= weight <= 4 * 0xffff_ffff,
        ;
        assert(0 <= quant * weight) by (nonlinear_arith)
            requires
                0 <= quant,
                0 <= weight,
        ;
        let product: u64 = quant as u64 * weight;
        let scaled: i64 = (product / (2 * target) as u64) as i64;
        let stepped: i64 = if scaled < quant - 4 {
            quant - 4
        } else if scaled > quant + 4 {
            quant + 4
        } else {
            scaled
        };
        let nudged: i64 = if fullness >= 2 * target && stepped == quant {
            stepped + 1
        } else if fullness <= -target && stepped == quant {
            stepped - 1
        } else {
            stepped
        };
        let chosen: u8 = if nudged < 1 {
            1
        } else if nudged > 31 {
            31
        } else {
            nudged as u8
        };
        self.quant = chosen;
    }
}

/// The quantiser is always legal, and moves by at most four steps.
pub proof fn quantiser_moves_smoothly(target: int, fullness: int, quant: int)
    requires
        1 <= quant <= 31,
    ensures
        1 <= next_quantiser(target, fullness, quant) <= 31,
        quant - 4 <= next_quantiser(target, fullness, quant) <= quant + 4,
{
}

/// The fuller the virtual buffer, the coarser the quantiser.
pub proof fn fuller_buffer_means_coarser_quantiser(target: int, low: int, high: int, quant: int)
    requires
        1 <= target,
        1 <= quant <= 31,
        -target <= low <= high <= 2 * target,
    ensures
        next_quantiser(target, low, quant) <= next_quantiser(target, high, quant),
{
    let a = quant * (2 * target + low);
    let b = quant * (2 * target + high);
    assert(a <= b) by (nonlinear_arith)
        requires
            a == quant * (2 * target + low),
            b == quant * (2 * target + high),
            low <= high,
            1 <= quant,
    ;
    vstd::arithmetic::div_mod::lemma_div_is_ordered(a, b, 2 * target);
    lemma_scaled_moves_with_the_buffer(target, low, quant);
    lemma_scaled_moves_with_the_buffer(target, high, quant);
}

/// A buffer that is over its target never lets the quantiser fall, and one that
/// is under never lets it rise.
pub proof fn quantiser_follows_the_buffer(target: int, fullness: int, quant: int)
    requires
        1 <= target,
        1 <= quant <= 31,
        -target <= fullness <= 2 * target,
    ensures
        fullness >= 0 ==> next_quantiser(target, fullness, quant) >= quant,
        fullness <= 0 ==> next_quantiser(target, fullness, quant) <= quant,
        fullness == 2 * target && quant < 31 ==> next_quantiser(target, fullness, quant) > quant,
        fullness == -target && quant > 1 ==> next_quantiser(target, fullness, quant) < quant,
{
    lemma_scaled_moves_with_the_buffer(target, fullness, quant);
}

proof fn lemma_scaled_moves_with_the_buffer(target: int, fullness: int, quant: int)
    requires
        1 <= target,
        1 <= quant,
        -target <= fullness <= 2 * target,
    ensures
        fullness >= 0 ==> quant * (2 * target + fullness) / (2 * target) >= quant,
        fullness <= 0 ==> quant * (2 * target + fullness) / (2 * target) <= quant,
{
    let t = 2 * target;
    let n = quant * (t + fullness);
    assert(n == quant * t + quant * fullness) by (nonlinear_arith)
        requires
            n == quant * (t + fullness),
    ;
    assert(quant * t / t == quant) by {
        vstd::arithmetic::div_mod::lemma_div_by_multiple(quant, t);
    }
    if fullness >= 0 {
        assert(quant * fullness >= 0) by (nonlinear_arith)
            requires
                quant >= 1,
                fullness >= 0,
        ;
        vstd::arithmetic::div_mod::lemma_div_is_ordered(quant * t, n, t);
    }
    if fullness <= 0 {
        assert(quant * fullness <= 0) by (nonlinear_arith)
            requires
                quant >= 1,
                fullness <= 0,
        ;
        vstd::arithmetic::div_mod::lemma_div_is_ordered(n, quant * t, t);
    }
}

} // verus!
