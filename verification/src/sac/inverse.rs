//! Decoding undoes encoding.
//!
//! The proof follows one decoder through the bits that an encoder leaves
//! behind. Those bits, as far as they go, pin the 16-bit number at their head
//! inside the encoder's interval; so at each symbol the decoder's number lies
//! in the share that the encoder chose, and the decoder's interval stays equal
//! to the encoder's.

use crate::bits;
use crate::sac::coder;
use crate::sac::coder::{Decoding, Encoding, Sink, Source, Symbol, Q1, Q2, Q3, STUFF_RUN, TOP};
use vstd::arithmetic::power2::pow2;
use vstd::prelude::*;

verus! {

/// A bit string with `n` opposites of its first bit slipped in behind it.
spec fn opened(b: Seq<bool>, n: nat) -> Seq<bool> {
    coder::bit_and_opposites(b[0], n) + b.skip(1)
}

/// The bits that an encoder still produces for `script` and a flush, before
/// stuffing.
spec fn tail_bits(low: int, high: int, pending: nat, script: Seq<Symbol>) -> Seq<bool>
    decreases script.len(),
{
    if script.len() == 0 {
        coder::flush_bits(low, pending)
    } else {
        let s = script[0];
        let t = coder::settle(
            coder::share_low(low, high, s.model, s.index),
            coder::share_high(low, high, s.model, s.index),
            pending,
        );
        t.bits + tail_bits(t.low, t.high, t.pending, script.skip(1))
    }
}

/// As `tail_bits`, for an interval whose leading bits are not settled yet.
spec fn unsettled_bits(low: int, high: int, pending: nat, script: Seq<Symbol>) -> Seq<bool> {
    let t = coder::settle(low, high, pending);
    t.bits + tail_bits(t.low, t.high, t.pending, script)
}

proof fn lemma_opened_twice(b: Seq<bool>, m: nat, n: nat)
    requires
        b.len() > 0,
    ensures
        opened(opened(b, m), n) =~= opened(b, m + n),
{
}

proof fn lemma_settle(low: int, high: int, pending: nat)
    requires
        0 <= low <= high <= TOP,
    ensures
        ({
            let t = coder::settle(low, high, pending);
            let z = coder::settle(low, high, 0);
            &&& coder::straddles(t.low, t.high)
            &&& t.low == z.low
            &&& t.high == z.high
            &&& z.bits.len() == 0 ==> t.bits.len() == 0 && t.pending == z.pending + pending
            &&& z.bits.len() > 0 ==> t.bits == opened(z.bits, pending) && t.pending == z.pending
        }),
    decreases 65536 - (high - low),
{
    if high < Q2 {
        lemma_settle(2 * low, 2 * high + 1, 0);
    } else if low >= Q2 {
        lemma_settle(2 * (low - Q2), 2 * (high - Q2) + 1, 0);
    } else if low >= Q1 && high < Q3 {
        let l = 2 * (low - Q1);
        let h = 2 * (high - Q1) + 1;
        lemma_settle(l, h, pending + 1);
        lemma_settle(l, h, 1);
        let y = coder::settle(l, h, 0);
        if y.bits.len() > 0 {
            lemma_opened_twice(y.bits, 1, pending);
        }
    }
}

proof fn lemma_tail_opened(low: int, high: int, pending: nat, script: Seq<Symbol>)
    requires
        coder::straddles(low, high),
        coder::are_symbols(script),
    ensures
        tail_bits(low, high, 0, script).len() >= 2,
        tail_bits(low, high, pending, script) == opened(tail_bits(low, high, 0, script), pending),
    decreases script.len(), 0int,
{
    if script.len() == 0 {
        assert(coder::flush_bits(low, pending) =~= opened(coder::flush_bits(low, 0), pending));
    } else {
        let s = script[0];
        coder::lemma_share(low, high, s.model, s.index);
        lemma_unsettled_opened(
            coder::share_low(low, high, s.model, s.index),
            coder::share_high(low, high, s.model, s.index),
            pending,
            script.skip(1),
        );
    }
}

proof fn lemma_unsettled_opened(low: int, high: int, pending: nat, script: Seq<Symbol>)
    requires
        0 <= low <= high <= TOP,
        coder::are_symbols(script),
    ensures
        unsettled_bits(low, high, 0, script).len() >= 2,
        unsettled_bits(low, high, pending, script) == opened(
            unsettled_bits(low, high, 0, script),
            pending,
        ),
    decreases script.len(), 1int,
{
    lemma_settle(low, high, pending);
    let t = coder::settle(low, high, pending);
    let z = coder::settle(low, high, 0);
    lemma_tail_opened(t.low, t.high, t.pending, script);
    lemma_tail_opened(t.low, t.high, z.pending, script);
    let b = tail_bits(t.low, t.high, 0, script);
    if z.bits.len() == 0 {
        lemma_opened_twice(b, z.pending, pending);
        assert(unsettled_bits(low, high, 0, script) =~= opened(b, z.pending));
        assert(unsettled_bits(low, high, pending, script) =~= opened(b, z.pending + pending));
    } else {
        assert(unsettled_bits(low, high, pending, script) =~= opened(
            unsettled_bits(low, high, 0, script),
            pending,
        ));
    }
}

/// How the bits of an unsettled interval begin.
proof fn lemma_unsettled_step(low: int, high: int, script: Seq<Symbol>)
    requires
        0 <= low <= high <= TOP,
        coder::are_symbols(script),
    ensures
        unsettled_bits(low, high, 0, script).len() >= 2,
        high < Q2 ==> unsettled_bits(low, high, 0, script) == seq![false] + unsettled_bits(
            2 * low,
            2 * high + 1,
            0,
            script,
        ),
        low >= Q2 ==> unsettled_bits(low, high, 0, script) == seq![true] + unsettled_bits(
            2 * (low - Q2),
            2 * (high - Q2) + 1,
            0,
            script,
        ),
        low < Q2 <= high && low >= Q1 && high < Q3 ==> unsettled_bits(low, high, 0, script)
            == opened(unsettled_bits(2 * (low - Q1), 2 * (high - Q1) + 1, 0, script), 1),
        coder::straddles(low, high) ==> unsettled_bits(low, high, 0, script) == tail_bits(
            low,
            high,
            0,
            script,
        ),
{
    lemma_unsettled_opened(low, high, 0, script);
    if high < Q2 {
        assert(unsettled_bits(low, high, 0, script) =~= seq![false] + unsettled_bits(
            2 * low,
            2 * high + 1,
            0,
            script,
        ));
    } else if low >= Q2 {
        assert(unsettled_bits(low, high, 0, script) =~= seq![true] + unsettled_bits(
            2 * (low - Q2),
            2 * (high - Q2) + 1,
            0,
            script,
        ));
    } else if low >= Q1 && high < Q3 {
        lemma_unsettled_opened(2 * (low - Q1), 2 * (high - Q1) + 1, 1, script);
    } else {
        assert(unsettled_bits(low, high, 0, script) =~= tail_bits(low, high, 0, script));
    }
}

/// A 16-bit window with its first bit shifted out and `b` shifted in.
spec fn shifted(w: Seq<bool>, b: bool) -> Seq<bool> {
    w.skip(1).push(b)
}

/// A 16-bit window with its second bit taken out and `b` shifted in.
spec fn closed_up(w: Seq<bool>, b: bool) -> Seq<bool> {
    seq![w[0]] + w.skip(2).push(b)
}

proof fn lemma_window(w: Seq<bool>, b: bool)
    requires
        w.len() == 16,
    ensures
        0 <= bits::value_of(w) <= TOP,
        w[0] <==> bits::value_of(w) >= Q2,
        w[0] != w[1] <==> Q1 <= bits::value_of(w) < Q3,
        bits::value_of(shifted(w, b)) == 2 * bits::value_of(w) + bits::bit_value(b) - if w[0] {
            2 * Q2
        } else {
            0
        },
        w[0] != w[1] ==> bits::value_of(closed_up(w, b)) == 2 * (bits::value_of(w) - Q1)
            + bits::bit_value(b),
{
    vstd::arithmetic::power2::lemma2_to64();
    let x = w.skip(1);
    let y = w.skip(2);
    assert(w =~= seq![w[0]] + x);
    assert(x =~= seq![w[1]] + y);
    bits::lemma_value_cons(w[0], x);
    bits::lemma_value_cons(w[1], y);
    bits::lemma_value_bound(y);
    assert(pow2(14) == 16384 && pow2(15) == 32768);
    assert(shifted(w, b).drop_last() =~= x);
    bits::lemma_value_cons(w[0], y.push(b));
    assert(y.push(b).drop_last() =~= y);
}

/// The window shows the bits of `t`, as far as both go.
spec fn shows(w: Seq<bool>, t: Seq<bool>) -> bool {
    w.len() == 16 && forall|i: int| 0 <= i < 16 && i < t.len() ==> w[i] == t[i]
}

/// The number at the head of an encoder's bits lies in its interval.
proof fn lemma_window_inside(low: int, high: int, script: Seq<Symbol>, w: Seq<bool>)
    requires
        0 <= low <= high <= TOP,
        coder::are_symbols(script),
        shows(w, unsettled_bits(low, high, 0, script)),
    ensures
        low <= bits::value_of(w) <= high,
    decreases script.len(), 65536 - (high - low),
{
    lemma_unsettled_step(low, high, script);
    let t = unsettled_bits(low, high, 0, script);
    if high < Q2 {
        let u = unsettled_bits(2 * low, 2 * high + 1, 0, script);
        let b = u.len() > 15 && u[15];
        lemma_window(w, b);
        lemma_unsettled_step(2 * low, 2 * high + 1, script);
        assert(t[0] == false);
        assert(forall|i: int| 0 <= i < u.len() ==> u[i] == t[i + 1]);
        assert(shows(shifted(w, b), u));
        lemma_window_inside(2 * low, 2 * high + 1, script, shifted(w, b));
    } else if low >= Q2 {
        let l = 2 * (low - Q2);
        let h = 2 * (high - Q2) + 1;
        let u = unsettled_bits(l, h, 0, script);
        let b = u.len() > 15 && u[15];
        lemma_window(w, b);
        lemma_unsettled_step(l, h, script);
        assert(t[0] == true);
        assert(forall|i: int| 0 <= i < u.len() ==> u[i] == t[i + 1]);
        assert(shows(shifted(w, b), u));
        lemma_window_inside(l, h, script, shifted(w, b));
    } else if low >= Q1 && high < Q3 {
        let l = 2 * (low - Q1);
        let h = 2 * (high - Q1) + 1;
        let u = unsettled_bits(l, h, 0, script);
        let b = u.len() > 15 && u[15];
        lemma_window(w, b);
        lemma_unsettled_step(l, h, script);
        assert(t == opened(u, 1));
        assert(t[0] == u[0] && t[1] == !u[0]);
        assert(forall|i: int| 1 <= i < u.len() ==> u[i] == t[i + 1]);
        assert(shows(closed_up(w, b), u));
        lemma_window_inside(l, h, script, closed_up(w, b));
    } else if script.len() == 0 {
        lemma_window(w, false);
        assert(t[0] == (low >= Q1) && t[1] == !(low >= Q1));
    } else {
        let s = script[0];
        coder::lemma_share(low, high, s.model, s.index);
        let l = coder::share_low(low, high, s.model, s.index);
        let h = coder::share_high(low, high, s.model, s.index);
        assert(t == unsettled_bits(l, h, 0, script.skip(1)));
        lemma_window_inside(l, h, script.skip(1), w);
    }
}

proof fn lemma_pull_shift(s: Source, n: nat)
    ensures
        coder::pull_many(coder::pull(s).1, n) == coder::pull_many(s, n + 1),
    decreases n,
{
    if n > 0 {
        lemma_pull_shift(s, (n - 1) as nat);
    } else {
        reveal_with_fuel(coder::pull_many, 2);
    }
}

/// The window and, behind it, the source carry the bits of `t`.
spec fn carries(w: Seq<bool>, s: Source, t: Seq<bool>) -> bool {
    &&& shows(w, t)
    &&& forall|i: int| 16 <= i < t.len() ==> coder::pulled_bit(s, (i - 16) as nat) == t[i]
}

proof fn lemma_carry_shift(w: Seq<bool>, s: Source, t: Seq<bool>)
    requires
        t.len() > 0,
        carries(w, s, t),
    ensures
        w[0] == t[0],
        carries(shifted(w, coder::pull(s).0), coder::pull(s).1, t.skip(1)),
{
    let (b, n) = coder::pull(s);
    let u = t.skip(1);
    assert(coder::pulled_bit(s, 0) == b) by {
        reveal_with_fuel(coder::pull_many, 2);
    }
    assert forall|i: int| 16 <= i < u.len() implies coder::pulled_bit(n, (i - 16) as nat) == u[i] by {
        lemma_pull_shift(s, (i - 16) as nat);
        assert(coder::pulled_bit(s, (i + 1 - 16) as nat) == t[i + 1]);
    }
    assert forall|i: int| 0 <= i < 16 && i < u.len() implies shifted(w, b)[i] == u[i] by {
        if i == 15 {
            assert(coder::pulled_bit(s, (16 - 16) as nat) == t[16]);
        }
    }
}

proof fn lemma_carry_close(w: Seq<bool>, s: Source, u: Seq<bool>)
    requires
        u.len() > 0,
        carries(w, s, opened(u, 1)),
    ensures
        w[0] != w[1],
        carries(closed_up(w, coder::pull(s).0), coder::pull(s).1, u),
{
    let (b, n) = coder::pull(s);
    let t = opened(u, 1);
    assert(t[0] == u[0] && t[1] == !u[0]);
    assert(forall|i: int| 1 <= i < u.len() ==> u[i] == t[i + 1]);
    assert(coder::pulled_bit(s, 0) == b) by {
        reveal_with_fuel(coder::pull_many, 2);
    }
    assert forall|i: int| 16 <= i < u.len() implies coder::pulled_bit(n, (i - 16) as nat) == u[i] by {
        lemma_pull_shift(s, (i - 16) as nat);
        assert(coder::pulled_bit(s, (i + 1 - 16) as nat) == t[i + 1]);
    }
    assert forall|i: int| 0 <= i < 16 && i < u.len() implies closed_up(w, b)[i] == u[i] by {
        if i == 15 {
            assert(coder::pulled_bit(s, (16 - 16) as nat) == t[16]);
        }
    }
}

/// A decoder that carries an encoder's bits settles as the encoder does, and
/// then carries the bits that are left.
proof fn lemma_resettle(d: Decoding, script: Seq<Symbol>, w: Seq<bool>) -> (v: Seq<bool>)
    requires
        0 <= d.low <= d.high <= TOP,
        coder::are_symbols(script),
        d.value == bits::value_of(w),
        carries(w, d.source, unsettled_bits(d.low, d.high, 0, script)),
    ensures
        ({
            let e = coder::resettle(d);
            let t = coder::settle(d.low, d.high, 0);
            &&& e.low == t.low
            &&& e.high == t.high
            &&& e.value == bits::value_of(v)
            &&& carries(v, e.source, tail_bits(t.low, t.high, 0, script))
        }),
    decreases 65536 - (d.high - d.low),
{
    let t = unsettled_bits(d.low, d.high, 0, script);
    lemma_unsettled_step(d.low, d.high, script);
    let (b, source) = coder::pull(d.source);
    if d.high < Q2 {
        lemma_window(w, b);
        lemma_carry_shift(w, d.source, t);
        let e = Decoding {
            low: 2 * d.low,
            high: 2 * d.high + 1,
            value: 2 * d.value + bits::bit_value(b),
            source,
        };
        assert(t.skip(1) =~= unsettled_bits(e.low, e.high, 0, script));
        lemma_resettle(e, script, shifted(w, b))
    } else if d.low >= Q2 {
        lemma_window(w, b);
        lemma_carry_shift(w, d.source, t);
        let e = Decoding {
            low: 2 * (d.low - Q2),
            high: 2 * (d.high - Q2) + 1,
            value: 2 * (d.value - Q2) + bits::bit_value(b),
            source,
        };
        assert(t.skip(1) =~= unsettled_bits(e.low, e.high, 0, script));
        lemma_resettle(e, script, shifted(w, b))
    } else if d.low >= Q1 && d.high < Q3 {
        let e = Decoding {
            low: 2 * (d.low - Q1),
            high: 2 * (d.high - Q1) + 1,
            value: 2 * (d.value - Q1) + bits::bit_value(b),
            source,
        };
        lemma_unsettled_step(e.low, e.high, script);
        lemma_carry_close(w, d.source, unsettled_bits(e.low, e.high, 0, script));
        lemma_window(w, b);
        let l = 2 * (d.low - Q1);
        let h = 2 * (d.high - Q1) + 1;
        lemma_settle(l, h, 1);
        lemma_resettle(e, script, closed_up(w, b))
    } else {
        w
    }
}

proof fn lemma_read_back(d: Decoding, script: Seq<Symbol>, w: Seq<bool>)
    requires
        coder::straddles(d.low, d.high),
        coder::are_symbols(script),
        d.value == bits::value_of(w),
        carries(w, d.source, tail_bits(d.low, d.high, 0, script)),
    ensures
        coder::reads(d, script),
    decreases script.len(),
{
    if script.len() > 0 {
        let s = script[0];
        let rest = script.skip(1);
        let l = coder::share_low(d.low, d.high, s.model, s.index);
        let h = coder::share_high(d.low, d.high, s.model, s.index);
        coder::lemma_share(d.low, d.high, s.model, s.index);
        lemma_window_inside(l, h, rest, w);
        coder::lemma_points_at_share(d, s.model, s.index);
        let i = coder::next_symbol(d, s.model);
        coder::lemma_points_at_one(d, s.model, i, s.index);
        let n = Decoding { low: l, high: h, ..d };
        let v = lemma_resettle(n, rest, w);
        lemma_settle(l, h, 0);
        let e = coder::decoded(d, s.model, i);
        lemma_read_back(e, rest, v);
    }
}

/// Putting a bit string and then another is putting the two joined.
pub proof fn lemma_put_concat(s: Sink, a: Seq<bool>, b: Seq<bool>)
    ensures
        coder::put_all(coder::put_all(s, a), b) == coder::put_all(s, a + b),
    decreases b.len(),
{
    if b.len() == 0 {
        assert(a + b =~= a);
    } else {
        lemma_put_concat(s, a, b.drop_last());
        assert((a + b).drop_last() =~= a + b.drop_last());
    }
}

/// A sink only ever appends.
proof fn lemma_put_appends(zeros: nat, out: Seq<bool>, b: Seq<bool>)
    ensures
        ({
            let s = coder::put_all(Sink { zeros, out }, b);
            let e = coder::put_all(Sink { zeros, out: Seq::empty() }, b);
            s.zeros == e.zeros && s.out == out + e.out
        }),
    decreases b.len(),
{
    if b.len() == 0 {
        assert(out + Seq::<bool>::empty() =~= out);
    } else {
        lemma_put_appends(zeros, out, b.drop_last());
        let e = coder::put_all(Sink { zeros, out: Seq::empty() }, b);
        assert(coder::put_all(Sink { zeros, out }, b).out =~= out + e.out);
    }
}

proof fn lemma_zeros_small(s: Sink, b: Seq<bool>)
    requires
        s.zeros < STUFF_RUN,
    ensures
        coder::put_all(s, b).zeros < STUFF_RUN,
    decreases b.len(),
{
    if b.len() > 0 {
        lemma_zeros_small(s, b.drop_last());
    }
}

/// A source stands where a sink with `zeros` trailing zeros stood, with `rest`
/// ahead of it: a stuffed `1` may still be between the two.
pub open spec fn in_step(zeros: nat, s: Source, rest: Seq<bool>) -> bool {
    ||| s == Source { zeros, bits: rest }
    ||| zeros == 0 && s == Source { zeros: STUFF_RUN as nat, bits: seq![true] + rest }
}

proof fn lemma_pull_in_step(zeros: nat, s: Source, bit: bool, rest: Seq<bool>)
    requires
        zeros < STUFF_RUN,
        in_step(
            zeros,
            s,
            coder::put(Sink { zeros, out: Seq::empty() }, bit).out + rest,
        ),
    ensures
        coder::pull(s).0 == bit,
        in_step(coder::put(Sink { zeros, out: Seq::empty() }, bit).zeros, coder::pull(s).1, rest),
{
    let e = coder::put(Sink { zeros, out: Seq::empty() }, bit);
    let ahead = e.out + rest;
    reveal_with_fuel(coder::pull, 2);
    if s.zeros == STUFF_RUN {
        assert((seq![true] + ahead).skip(1) =~= ahead);
    }
    if !bit && zeros + 1 == STUFF_RUN {
        assert(ahead.skip(1) =~= seq![true] + rest);
    } else {
        assert(ahead.skip(1) =~= rest);
    }
}

/// A source in step with a sink delivers the bits that were put into the sink,
/// and is in step again behind them.
pub proof fn unstuffing_inverts_stuffing(zeros: nat, s: Source, b: Seq<bool>, rest: Seq<bool>)
    requires
        zeros < STUFF_RUN,
        in_step(zeros, s, coder::put_all(Sink { zeros, out: Seq::empty() }, b).out + rest),
    ensures
        coder::pulled_bits(s, b.len()) == b,
        in_step(
            coder::put_all(Sink { zeros, out: Seq::empty() }, b).zeros,
            coder::pull_many(s, b.len()),
            rest,
        ),
    decreases b.len(),
{
    if b.len() == 0 {
        assert(Seq::<bool>::empty() + rest =~= rest);
        assert(coder::pulled_bits(s, 0) =~= b);
    } else {
        let a = b.drop_last();
        let start = Sink { zeros, out: Seq::empty() };
        let m = coder::put_all(start, a);
        let p = coder::put(Sink { zeros: m.zeros, out: Seq::empty() }, b.last());
        assert(coder::put_all(start, b).out + rest =~= m.out + (p.out + rest));
        unstuffing_inverts_stuffing(zeros, s, a, p.out + rest);
        lemma_zeros_small(start, a);
        lemma_pull_in_step(m.zeros, coder::pull_many(s, a.len()), b.last(), rest);
        assert forall|k: int| 0 <= k < b.len() implies coder::pulled_bits(s, b.len())[k] == b[k] by {
            if k < a.len() {
                assert(coder::pulled_bits(s, a.len())[k] == a[k]);
            }
        }
        assert(coder::pulled_bits(s, b.len()) =~= b);
    }
}

/// What an encoder writes for `script` and a flush.
proof fn lemma_encoded_bits(e: Encoding, script: Seq<Symbol>)
    ensures
        coder::flushed(coder::encoded_all(e, script)).sink == coder::put_all(
            e.sink,
            tail_bits(e.low, e.high, e.pending, script),
        ),
    decreases script.len(),
{
    if script.len() > 0 {
        let n = coder::encoded(e, script[0]);
        lemma_encoded_bits(n, script.skip(1));
        let t = coder::settle(
            coder::share_low(e.low, e.high, script[0].model, script[0].index),
            coder::share_high(e.low, e.high, script[0].model, script[0].index),
            e.pending,
        );
        lemma_put_concat(e.sink, t.bits, tail_bits(t.low, t.high, t.pending, script.skip(1)));
    }
}

/// Coding symbols one after another is coding the joined string.
pub proof fn lemma_encoded_concat(e: Encoding, a: Seq<Symbol>, b: Seq<Symbol>)
    ensures
        coder::encoded_all(coder::encoded_all(e, a), b) == coder::encoded_all(e, a + b),
    decreases a.len(),
{
    if a.len() == 0 {
        assert(a + b =~= b);
    } else {
        lemma_encoded_concat(coder::encoded(e, a[0]), a.skip(1), b);
        assert((a + b).skip(1) =~= a.skip(1) + b);
    }
}

/// A decoder that is about to read one string of symbols and then another reads
/// the first, and is then about to read the second.
pub proof fn lemma_reads_concat(d: Decoding, a: Seq<Symbol>, b: Seq<Symbol>)
    ensures
        coder::reads(d, a + b) <==> coder::reads(d, a) && coder::reads(coder::after_all(d, a), b),
        coder::after_all(coder::after_all(d, a), b) == coder::after_all(d, a + b),
    decreases a.len(),
{
    if a.len() == 0 {
        assert(a + b =~= b);
    } else {
        lemma_reads_concat(coder::after(d, a[0].model), a.skip(1), b);
        assert((a + b).skip(1) =~= a.skip(1) + b);
    }
}

/// Coding a string of one symbol.
pub proof fn lemma_encoded_one(e: Encoding, s: Symbol)
    ensures
        coder::encoded_all(e, seq![s]) == coder::encoded(e, s),
{
    assert(seq![s].skip(1) =~= Seq::<Symbol>::empty());
    reveal_with_fuel(coder::encoded_all, 2);
}

/// Reading a string of one symbol.
pub proof fn lemma_reads_one(d: Decoding, s: Symbol)
    ensures
        coder::reads(d, seq![s]) <==> coder::next_symbol(d, s.model) == s.index,
        coder::after_all(d, seq![s]) == coder::after(d, s.model),
{
    assert(seq![s].skip(1) =~= Seq::<Symbol>::empty());
    reveal_with_fuel(coder::reads, 2);
    reveal_with_fuel(coder::after_all, 2);
}

/// The bits that an encoder appends, from a fresh start behind `zeros` zeros,
/// for a string of symbols and a flush.
pub open spec fn code_of(zeros: nat, script: Seq<Symbol>) -> Seq<bool> {
    coder::flushed(
        coder::encoded_all(
            coder::encoding_at(coder::sink_after(zeros, Seq::empty())),
            script,
        ),
    ).sink.out
}

/// The source that a fresh decoder reads from, behind `zeros` zeros.
pub open spec fn source_after(zeros: nat, b: Seq<bool>) -> Source {
    Source { zeros: if zeros >= STUFF_RUN { STUFF_RUN as nat } else { zeros }, bits: b }
}

/// Decoding undoes encoding: whatever symbols an encoder writes before it is
/// flushed, a decoder that starts where the encoder did reads the same symbols,
/// whatever bits come behind, if any.
pub proof fn decoding_inverts_encoding(zeros: nat, script: Seq<Symbol>, behind: Seq<bool>)
    requires
        coder::are_symbols(script),
    ensures
        coder::reads(
            coder::decoding_at(source_after(zeros, code_of(zeros, script) + behind)),
            script,
        ),
{
    let sink = coder::sink_after(zeros, Seq::empty());
    let e = coder::encoding_at(sink);
    let t = tail_bits(0, TOP as int, 0, script);
    lemma_encoded_bits(e, script);
    lemma_put_appends(sink.zeros, sink.out, t);
    let stuffed = coder::put_all(Sink { zeros: sink.zeros, out: Seq::empty() }, t).out;
    let s = source_after(zeros, code_of(zeros, script) + behind);
    if zeros >= STUFF_RUN {
        assert(s.bits =~= seq![true] + (stuffed + behind));
    } else {
        assert(s.bits =~= stuffed + behind);
    }
    unstuffing_inverts_stuffing(sink.zeros, s, t, behind);
    let w = coder::pulled_bits(s, 16);
    let d = coder::decoding_at(s);
    assert forall|i: int| 16 <= i < t.len() implies coder::pulled_bit(d.source, (i - 16) as nat)
        == t[i] by {
        lemma_pull_more(s, 16, (i - 16) as nat);
        assert(coder::pulled_bits(s, t.len())[i] == t[i]);
    }
    assert forall|i: int| 0 <= i < 16 && i < t.len() implies w[i] == t[i] by {
        assert(coder::pulled_bits(s, t.len())[i] == t[i]);
    }
    lemma_read_back(d, script, w);
}

proof fn lemma_pull_more(s: Source, m: nat, n: nat)
    ensures
        coder::pull_many(coder::pull_many(s, m), n) == coder::pull_many(s, m + n),
    decreases n,
{
    if n > 0 {
        lemma_pull_more(s, m, (n - 1) as nat);
    }
}

/// Every stretch of 15 bits holds a `1`.
pub open spec fn no_long_zero_run(b: Seq<bool>) -> bool {
    forall|j: int|
        0 <= j <= b.len() - (STUFF_RUN + 1) ==> #[trigger] holds_one(b, j, STUFF_RUN + 1)
}

/// One of the `n` bits from bit `j` on is a `1`.
pub open spec fn holds_one(b: Seq<bool>, j: int, n: int) -> bool {
    exists|k: int| j <= k < j + n && #[trigger] b[k]
}

/// The sink's count is right: exactly that many zeros end its output, where it
/// started empty.
spec fn counted(s: Sink) -> bool {
    &&& s.zeros < STUFF_RUN
    &&& s.zeros <= s.out.len()
    &&& forall|k: int| s.out.len() - s.zeros <= k < s.out.len() ==> !s.out[k]
    &&& s.zeros < s.out.len() ==> s.out[s.out.len() - s.zeros - 1]
}

proof fn lemma_put_counted(s: Sink, b: Seq<bool>)
    requires
        counted(s),
        no_long_zero_run(s.out),
    ensures
        counted(coder::put_all(s, b)),
        no_long_zero_run(coder::put_all(s, b).out),
    decreases b.len(),
{
    if b.len() > 0 {
        lemma_put_counted(s, b.drop_last());
        let m = coder::put_all(s, b.drop_last());
        let n = coder::put(m, b.last());
        assert forall|j: int| 0 <= j <= n.out.len() - (STUFF_RUN + 1) implies #[trigger] holds_one(
            n.out,
            j,
            STUFF_RUN + 1,
        ) by {
            if j <= m.out.len() - (STUFF_RUN + 1) {
                assert(holds_one(m.out, j, STUFF_RUN + 1));
                let k = choose|k: int| j <= k < j + STUFF_RUN + 1 && m.out[k];
                assert(n.out[k]);
            } else if b.last() || j > m.out.len() - STUFF_RUN {
                assert(n.out[n.out.len() - 1]);
            } else {
                let k = m.out.len() - m.zeros - 1;
                assert(m.zeros < m.out.len());
                assert(n.out[k]);
            }
        }
    }
}

/// No start code can be mistaken in arithmetic code: from a start at a set bit
/// or at the beginning of the stream, the bits of any symbols and a flush never
/// hold 15 zeros in a row.
pub proof fn code_has_no_long_zero_run(script: Seq<Symbol>)
    ensures
        no_long_zero_run(code_of(0, script)),
{
    let sink = coder::sink_after(0, Seq::empty());
    lemma_encoded_bits(coder::encoding_at(sink), script);
    lemma_put_counted(sink, tail_bits(0, TOP as int, 0, script));
}

} // verus!
