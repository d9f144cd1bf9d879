//! The arithmetic coder, with its zero-run stuffing.
//!
//! An encoder keeps an interval of 16-bit numbers and narrows it to a share of
//! its length for each symbol; whenever the two ends agree on their leading
//! bit, that bit goes out. A decoder keeps the same interval and the 16-bit
//! number at the head of the stream, and finds each symbol by asking whose
//! share the number lies in.

use crate::bits;
use oxideav_core::bits::{BitReader, BitWriter};
use vstd::prelude::*;

verus! {

/// One quarter of the interval range.
pub const Q1: i64 = 16384;

/// One half of the interval range.
pub const Q2: i64 = 32768;

/// Three quarters of the interval range.
pub const Q3: i64 = 49152;

/// The largest number of the interval range.
pub const TOP: i64 = 65535;

/// Length of the zero run behind which a `1` is stuffed.
pub const STUFF_RUN: u32 = 14;

/// `c` is a cumulative frequency table: it falls strictly from at most 16383
/// to 0, and symbol `i` has the share `c[i] - c[i + 1]` of `c[0]`.
pub open spec fn is_model(c: Seq<i64>) -> bool {
    &&& c.len() >= 2
    &&& c[0] <= 16383
    &&& c[c.len() - 1] == 0
    &&& forall|i: int, j: int| 0 <= i < j < c.len() ==> c[i] > c[j]
}

/// A symbol together with the model that it is coded under.
pub struct Symbol {
    pub model: Seq<i64>,
    pub index: int,
}

/// The symbol exists in its model.
pub open spec fn is_symbol(s: Symbol) -> bool {
    is_model(s.model) && 0 <= s.index < s.model.len() - 1
}

/// All of them are symbols.
pub open spec fn are_symbols(script: Seq<Symbol>) -> bool {
    forall|k: int| 0 <= k < script.len() ==> is_symbol(#[trigger] script[k])
}

/// The interval straddles the middle and is more than a quarter long, so that
/// no leading bit is settled.
pub open spec fn straddles(low: int, high: int) -> bool {
    &&& 0 <= low < Q2 <= high <= TOP
    &&& low < Q1 || high >= Q3
}

/// Lower end of the share that symbol `i` has of an interval.
pub open spec fn share_low(low: int, high: int, c: Seq<i64>, i: int) -> int {
    low + ((high - low + 1) * c[i + 1]) / (c[0] as int)
}

/// Upper end of the share that symbol `i` has of an interval.
pub open spec fn share_high(low: int, high: int, c: Seq<i64>, i: int) -> int {
    low - 1 + ((high - low + 1) * c[i]) / (c[0] as int)
}

/// A bit and `n` copies of its complement.
pub open spec fn bit_and_opposites(bit: bool, n: nat) -> Seq<bool> {
    seq![bit] + Seq::new(n, |k: int| !bit)
}

/// What settling the leading bits of an interval gives: the bits, the interval
/// that is left and the number of opposite bits still owed.
#[verifier::ext_equal]
pub struct Settled {
    pub bits: Seq<bool>,
    pub low: int,
    pub high: int,
    pub pending: nat,
}

/// Settle the leading bits of an interval with `pending` opposite bits owed.
pub open spec fn settle(low: int, high: int, pending: nat) -> Settled
    decreases 65536 - (high - low),
    when 0 <= low <= high <= TOP
{
    if high < Q2 {
        let s = settle(2 * low, 2 * high + 1, 0);
        Settled { bits: bit_and_opposites(false, pending) + s.bits, ..s }
    } else if low >= Q2 {
        let s = settle(2 * (low - Q2), 2 * (high - Q2) + 1, 0);
        Settled { bits: bit_and_opposites(true, pending) + s.bits, ..s }
    } else if low >= Q1 && high < Q3 {
        settle(2 * (low - Q1), 2 * (high - Q1) + 1, pending + 1)
    } else {
        Settled { bits: Seq::empty(), low, high, pending }
    }
}

/// A bit sink that counts the zeros at the end of its output.
#[verifier::ext_equal]
pub struct Sink {
    pub zeros: nat,
    pub out: Seq<bool>,
}

/// Put one bit into a sink; the zero that completes a run brings a `1` along.
pub open spec fn put(s: Sink, bit: bool) -> Sink {
    if bit {
        Sink { zeros: 0, out: s.out.push(true) }
    } else if s.zeros + 1 == STUFF_RUN {
        Sink { zeros: 0, out: s.out.push(false).push(true) }
    } else {
        Sink { zeros: s.zeros + 1, out: s.out.push(false) }
    }
}

/// Put a bit string into a sink.
pub open spec fn put_all(s: Sink, bits: Seq<bool>) -> Sink
    decreases bits.len(),
{
    if bits.len() == 0 {
        s
    } else {
        put(put_all(s, bits.drop_last()), bits.last())
    }
}

/// A sink at the end of output that ends in `zeros` zeros.
pub open spec fn sink_after(zeros: nat, out: Seq<bool>) -> Sink {
    if zeros >= STUFF_RUN {
        Sink { zeros: 0, out: out.push(true) }
    } else {
        Sink { zeros, out }
    }
}

/// The state of an encoder.
#[verifier::ext_equal]
pub struct Encoding {
    pub low: int,
    pub high: int,
    pub pending: nat,
    pub sink: Sink,
}

/// An encoder that has coded nothing yet.
pub open spec fn encoding_at(sink: Sink) -> Encoding {
    Encoding { low: 0, high: TOP as int, pending: 0, sink }
}

/// An encoder after one more symbol.
pub open spec fn encoded(e: Encoding, s: Symbol) -> Encoding {
    let t = settle(
        share_low(e.low, e.high, s.model, s.index),
        share_high(e.low, e.high, s.model, s.index),
        e.pending,
    );
    Encoding { low: t.low, high: t.high, pending: t.pending, sink: put_all(e.sink, t.bits) }
}

/// An encoder after a string of symbols.
pub open spec fn encoded_all(e: Encoding, script: Seq<Symbol>) -> Encoding
    decreases script.len(),
{
    if script.len() == 0 {
        e
    } else {
        encoded_all(encoded(e, script[0]), script.skip(1))
    }
}

/// The bits that end an encoding: enough to pin a number inside the interval.
pub open spec fn flush_bits(low: int, pending: nat) -> Seq<bool> {
    bit_and_opposites(low >= Q1, pending + 1)
}

/// An encoder after a flush.
pub open spec fn flushed(e: Encoding) -> Encoding {
    encoding_at(put_all(e.sink, flush_bits(e.low, e.pending)))
}

/// A bit source that counts the zeros that it has just delivered.
#[verifier::ext_equal]
pub struct Source {
    pub zeros: nat,
    pub bits: Seq<bool>,
}

/// The next bit of a source, and the source behind it: a `1` behind a complete
/// zero run is skipped, and an exhausted source delivers zeros.
pub open spec fn pull(s: Source) -> (bool, Source)
    decreases s.bits.len(),
{
    if s.bits.len() == 0 {
        (false, s)
    } else if s.bits[0] && s.zeros == STUFF_RUN {
        pull(Source { zeros: 0, bits: s.bits.skip(1) })
    } else if s.bits[0] {
        (true, Source { zeros: 0, bits: s.bits.skip(1) })
    } else {
        (false, Source { zeros: if s.zeros <= STUFF_RUN { s.zeros + 1 } else { s.zeros }, bits: s.bits.skip(1) })
    }
}

/// The source behind its next `n` bits.
pub open spec fn pull_many(s: Source, n: nat) -> Source
    decreases n,
{
    if n == 0 {
        s
    } else {
        pull(pull_many(s, (n - 1) as nat)).1
    }
}

/// Bit `n` that a source will deliver.
pub open spec fn pulled_bit(s: Source, n: nat) -> bool {
    pull(pull_many(s, n)).0
}

/// The next `n` bits that a source will deliver.
pub open spec fn pulled_bits(s: Source, n: nat) -> Seq<bool> {
    Seq::new(n, |k: int| pulled_bit(s, k as nat))
}

/// The state of a decoder.
#[verifier::ext_equal]
pub struct Decoding {
    pub low: int,
    pub high: int,
    pub value: int,
    pub source: Source,
}

/// A decoder that has loaded the first 16 bits of a source.
pub open spec fn decoding_at(source: Source) -> Decoding {
    Decoding {
        low: 0,
        high: TOP as int,
        value: bits::value_of(pulled_bits(source, 16)) as int,
        source: pull_many(source, 16),
    }
}

/// Where in the model's frequency range a decoder's number lies.
pub open spec fn frequency(d: Decoding, c: Seq<i64>) -> int {
    ((d.value - d.low + 1) * c[0] - 1) / (d.high - d.low + 1)
}

/// Symbol `i` is the one whose share holds the decoder's number.
pub open spec fn points_at(d: Decoding, c: Seq<i64>, i: int) -> bool {
    0 <= i < c.len() - 1 && c[i + 1] <= frequency(d, c) < c[i]
}

/// The symbol that a decoder reads next under model `c`.
pub open spec fn next_symbol(d: Decoding, c: Seq<i64>) -> int {
    choose|i: int| points_at(d, c, i)
}

/// Settle the leading bits of a decoder's interval, pulling a bit for each.
pub open spec fn resettle(d: Decoding) -> Decoding
    decreases 65536 - (d.high - d.low),
    when 0 <= d.low <= d.high <= TOP
{
    let (bit, source) = pull(d.source);
    if d.high < Q2 {
        resettle(
            Decoding {
                low: 2 * d.low,
                high: 2 * d.high + 1,
                value: 2 * d.value + bits::bit_value(bit),
                source,
            },
        )
    } else if d.low >= Q2 {
        resettle(
            Decoding {
                low: 2 * (d.low - Q2),
                high: 2 * (d.high - Q2) + 1,
                value: 2 * (d.value - Q2) + bits::bit_value(bit),
                source,
            },
        )
    } else if d.low >= Q1 && d.high < Q3 {
        resettle(
            Decoding {
                low: 2 * (d.low - Q1),
                high: 2 * (d.high - Q1) + 1,
                value: 2 * (d.value - Q1) + bits::bit_value(bit),
                source,
            },
        )
    } else {
        d
    }
}

/// A decoder after it has read symbol `i` of model `c`.
pub open spec fn decoded(d: Decoding, c: Seq<i64>, i: int) -> Decoding {
    resettle(
        Decoding {
            low: share_low(d.low, d.high, c, i),
            high: share_high(d.low, d.high, c, i),
            ..d
        },
    )
}

/// A decoder after the next symbol under model `c`, whichever it is.
pub open spec fn after(d: Decoding, c: Seq<i64>) -> Decoding {
    decoded(d, c, next_symbol(d, c))
}

/// The decoder is about to read exactly these symbols.
pub open spec fn reads(d: Decoding, script: Seq<Symbol>) -> bool
    decreases script.len(),
{
    script.len() == 0 || {
        &&& next_symbol(d, script[0].model) == script[0].index
        &&& reads(after(d, script[0].model), script.skip(1))
    }
}

/// A decoder after as many symbols as there are in `script`, under the same
/// models.
pub open spec fn after_all(d: Decoding, script: Seq<Symbol>) -> Decoding
    decreases script.len(),
{
    if script.len() == 0 {
        d
    } else {
        after_all(after(d, script[0].model), script.skip(1))
    }
}

/// A decoder's registers are in order: its number lies in its interval.
pub open spec fn is_decoding(d: Decoding) -> bool {
    straddles(d.low, d.high) && d.low <= d.value <= d.high
}

/// Shares of an interval are not empty and lie inside it.
pub proof fn lemma_share(low: int, high: int, c: Seq<i64>, i: int)
    requires
        straddles(low, high),
        is_model(c),
        0 <= i < c.len() - 1,
    ensures
        low <= share_low(low, high, c, i) <= share_high(low, high, c, i) <= high,
{
    let n = high - low + 1;
    let a = c[i + 1] as int;
    let b = c[i] as int;
    let t = c[0] as int;
    assert(c[i] > c[i + 1]);
    assert(i + 1 < c.len() - 1 ==> c[i + 1] > c[c.len() - 1]);
    assert(i > 0 ==> c[0] > c[i]);
    assert(0 <= (n * a) / t && (n * a) / t + 1 <= (n * b) / t && (n * b) / t <= n) by (nonlinear_arith)
        requires
            0 <= a < b <= t,
            0 < t <= 16383,
            n >= 16386,
    {
        assert(n * b >= n * a + n);
        assert(n * a >= 0);
        assert((n * a + t) / t == (n * a) / t + 1);
        assert(n * b <= n * t);
        assert((n * t) / t == n);
    }
}

/// The number that a decoder holds lies in exactly one symbol's share: the
/// symbol that it points at.
pub proof fn lemma_points_at_share(d: Decoding, c: Seq<i64>, i: int)
    requires
        is_decoding(d),
        is_model(c),
        0 <= i < c.len() - 1,
    ensures
        points_at(d, c, i) <==> share_low(d.low, d.high, c, i) <= d.value <= share_high(
            d.low,
            d.high,
            c,
            i,
        ),
{
    let n = d.high - d.low + 1;
    let a = c[i + 1] as int;
    let b = c[i] as int;
    let t = c[0] as int;
    let m = d.value - d.low + 1;
    assert(c[i] > c[i + 1]);
    assert(i + 1 < c.len() - 1 ==> c[i + 1] > c[c.len() - 1]);
    assert(i > 0 ==> c[0] > c[i]);
    lemma_quotients(n, m, t, a);
    lemma_quotients(n, m, t, b);
}

/// Two ways to say that `m` parts in `n` are more than `a` parts in `t`.
proof fn lemma_quotients(n: int, m: int, t: int, a: int)
    requires
        n > 0,
        t > 0,
    ensures
        (m * t - 1) / n >= a <==> m - 1 >= (n * a) / t,
{
    assert((m * t - 1) / n >= a <==> m * t - 1 >= n * a) by (nonlinear_arith)
        requires
            n > 0,
    ;
    assert(m - 1 >= (n * a) / t <==> m * t > n * a) by (nonlinear_arith)
        requires
            t > 0,
    ;
}

/// A decoder never points at two symbols.
pub proof fn lemma_points_at_one(d: Decoding, c: Seq<i64>, i: int, j: int)
    requires
        is_model(c),
        points_at(d, c, i),
        points_at(d, c, j),
    ensures
        i == j,
{
    if i < j {
        assert(i + 1 < j ==> c[i + 1] > c[j]);
    } else if j < i {
        assert(j + 1 < i ==> c[j + 1] > c[i]);
    }
}

/// An arithmetic decoder over a bit reader.
///
/// Bits past the end of the reader's data read as zeros: whatever comes behind
/// a flush, the symbols before it are settled.
pub struct SacDecoder<'r, 'd> {
    pub reader: &'r mut BitReader<'d>,
    pub low: i64,
    pub high: i64,
    pub code_value: i64,
    /// Length of the zero run that has just been read.
    pub zero_run: u32,
}

impl<'r, 'd> SacDecoder<'r, 'd> {
    /// The bits that the decoder has not pulled yet.
    pub open spec fn source(&self) -> Source {
        Source { zeros: self.zero_run as nat, bits: bits::unread(*self.reader) }
    }

    /// The decoder's registers and source.
    pub open spec fn view(&self) -> Decoding {
        Decoding {
            low: self.low as int,
            high: self.high as int,
            value: self.code_value as int,
            source: self.source(),
        }
    }

    /// The registers are in order.
    pub open spec fn wf(&self) -> bool {
        is_decoding(self@) && self.zero_run <= STUFF_RUN + 1
    }

    /// A decoder at the reader's position, with no zeros before it.
    pub fn new(reader: &'r mut BitReader<'d>) -> (dec: Self)
        ensures
            dec.wf(),
            dec@ == decoding_at(Source { zeros: 0, bits: bits::unread(*old(reader)) }),
            *final(dec.reader) == *final(reader),
            bits::drained(*old(reader), *dec.reader),
    {
        Self::with_zero_run(reader, 0)
    }

    /// A decoder at the reader's position, behind a run of `zero_run` zeros.
    ///
    /// Zero runs count over the whole stream: the zeros that a header ends in
    /// are the beginning of a run that goes on in the arithmetic code.
    pub fn with_zero_run(reader: &'r mut BitReader<'d>, zero_run: u32) -> (dec: Self)
        ensures
            dec.wf(),
            dec@ == decoding_at(
                Source {
                    zeros: if zero_run < STUFF_RUN {
                        zero_run as nat
                    } else {
                        STUFF_RUN as nat
                    },
                    bits: bits::unread(*old(reader)),
                },
            ),
            *final(dec.reader) == *final(reader),
            bits::drained(*old(reader), *dec.reader),
    {
        let mut dec = SacDecoder {
            reader,
            low: 0,
            high: TOP,
            code_value: 0,
            zero_run: if zero_run < STUFF_RUN {
                zero_run
            } else {
                STUFF_RUN
            },
        };
        let ghost start = dec.source();
        let ghost end = *final(dec.reader);
        let ghost entry = *dec.reader;
        let mut loaded: u32 = 0;
        while loaded < 16
            invariant
                0 <= loaded <= 16,
                dec.low == 0,
                dec.high == TOP,
                dec.zero_run <= STUFF_RUN + 1,
                dec.source() == pull_many(start, loaded as nat),
                dec.code_value == bits::value_of(pulled_bits(start, loaded as nat)),
                *final(dec.reader) == end,
                bits::drained(entry, *dec.reader),
            decreases 16 - loaded,
        {
            proof {
                let seen = pulled_bits(start, loaded as nat);
                bits::lemma_value_bound(seen);
                vstd::arithmetic::power2::lemma2_to64();
                assert(loaded < 16);
                if loaded > 0 {
                    vstd::arithmetic::power2::lemma_pow2_strictly_increases(loaded as nat, 16);
                }
                assert(pulled_bits(start, (loaded + 1) as nat).drop_last() =~= seen);
            }
            let bit: i64 = dec.next_bit();
            dec.code_value = 2 * dec.code_value + bit;
            loaded = loaded + 1;
        }
        proof {
            bits::lemma_value_bound(pulled_bits(start, 16));
            vstd::arithmetic::power2::lemma2_to64();
        }
        dec
    }

    /// Pull one bit from the source: 0 or 1.
    pub fn next_bit(&mut self) -> (bit: i64)
        requires
            old(self).zero_run <= STUFF_RUN + 1,
        ensures
            bit == bits::bit_value(pull(old(self).source()).0),
            final(self).source() == pull(old(self).source()).1,
            final(self).zero_run <= STUFF_RUN + 1,
            final(self).low == old(self).low,
            final(self).high == old(self).high,
            final(self).code_value == old(self).code_value,
            *final(final(self).reader) == *final(old(self).reader),
            bits::drained(*old(self).reader, *final(self).reader),
    {
        loop
            invariant
                self.zero_run <= STUFF_RUN + 1,
                pull(self.source()) == pull(old(self).source()),
                self.low == old(self).low,
                self.high == old(self).high,
                self.code_value == old(self).code_value,
                *final(self.reader) == *final(old(self).reader),
                bits::drained(*old(self).reader, *self.reader),
            decreases bits::unread(*self.reader).len(),
        {
            let ghost before = *self.reader;
            let bit = match self.reader.read_bit() {
                Ok(b) => b,
                Err(_) => {
                    assert(bits::unread(before) =~= Seq::empty());
                    assert(bits::unread(*self.reader) =~= Seq::empty());
                    return 0;
                },
            };
            proof {
                bits::lemma_unread_step(before, *self.reader);
            }
            if bit {
                if self.zero_run == STUFF_RUN {
                    self.zero_run = 0;
                    continue;
                }
                self.zero_run = 0;
                return 1;
            }
            if self.zero_run <= STUFF_RUN {
                self.zero_run = self.zero_run + 1;
            }
            return 0;
        }
    }

    /// Read one symbol under the model `cumf`, and return its index.
    pub fn decode_symbol(&mut self, cumf: &[i64]) -> (index: usize)
        requires
            old(self).wf(),
            is_model(cumf@),
        ensures
            points_at(old(self)@, cumf@, index as int),
            index == next_symbol(old(self)@, cumf@),
            final(self)@ == decoded(old(self)@, cumf@, index as int),
            final(self).wf(),
            *final(final(self).reader) == *final(old(self).reader),
            bits::drained(*old(self).reader, *final(self).reader),
    {
        let ghost d = self@;
        let ghost c = cumf@;
        let length: i64 = self.high - self.low + 1;
        proof {
            lemma_product(d.value - d.low + 1, c[0] as int);
            assert(0 < c[0]) by {
                assert(c[0] > c[c.len() - 1]);
            }
            lemma_frequency(d, c);
        }
        let cum: i64 = ((self.code_value - self.low + 1) * cumf[0] - 1) / length;
        let mut index: usize = 1;
        while index < cumf.len() - 1 && cumf[index] > cum
            invariant
                is_model(c),
                c == cumf@,
                1 <= index < c.len(),
                c[index - 1] > cum,
                cum == frequency(d, c),
            decreases c.len() - index,
        {
            index = index + 1;
        }
        proof {
            let i = index - 1;
            assert(points_at(d, c, i));
            lemma_points_at_one(d, c, i, next_symbol(d, c));
            lemma_points_at_share(d, c, i);
            lemma_share(d.low, d.high, c, i);
            assert(c[i + 1] >= 0 && c[i] <= c[0]) by {
                assert(i + 1 < c.len() - 1 ==> c[i + 1] > c[c.len() - 1]);
                assert(i > 0 ==> c[0] > c[i]);
            }
            lemma_product(length as int, c[i] as int);
            lemma_product(length as int, c[i + 1] as int);
            lemma_quotient(length as int, c[i] as int, c[0] as int);
            lemma_quotient(length as int, c[i + 1] as int, c[0] as int);
        }
        self.high = self.low - 1 + (length * cumf[index - 1]) / cumf[0];
        self.low = self.low + (length * cumf[index]) / cumf[0];
        loop
            invariant
                0 <= self.low <= self.code_value <= self.high <= TOP,
                self.zero_run <= STUFF_RUN + 1,
                resettle(self@) == decoded(d, c, index - 1),
                *final(self.reader) == *final(old(self).reader),
                bits::drained(*old(self).reader, *self.reader),
            ensures
                self.wf(),
                self@ == decoded(d, c, index - 1),
            decreases 65536 - (self.high - self.low),
        {
            if self.high < Q2 {
            } else if self.low >= Q2 {
                self.code_value = self.code_value - Q2;
                self.low = self.low - Q2;
                self.high = self.high - Q2;
            } else if self.low >= Q1 && self.high < Q3 {
                self.code_value = self.code_value - Q1;
                self.low = self.low - Q1;
                self.high = self.high - Q1;
            } else {
                break;
            }
            self.low = self.low * 2;
            self.high = 2 * self.high + 1;
            let bit: i64 = self.next_bit();
            self.code_value = 2 * self.code_value + bit;
        }
        index - 1
    }
}

/// An arithmetic encoder over a bit writer.
pub struct SacEncoder<'w> {
    pub writer: &'w mut BitWriter,
    pub low: i64,
    pub high: i64,
    /// Opposite bits that the next settled bit brings along.
    pub opposite_bits: u64,
    /// Length of the zero run that has just been written.
    pub zero_run: u32,
}

impl<'w> SacEncoder<'w> {
    /// The bits written so far.
    pub open spec fn sink(&self) -> Sink {
        Sink { zeros: self.zero_run as nat, out: bits::written(*self.writer) }
    }

    /// The encoder's registers and sink.
    pub open spec fn view(&self) -> Encoding {
        Encoding {
            low: self.low as int,
            high: self.high as int,
            pending: self.opposite_bits as nat,
            sink: self.sink(),
        }
    }

    /// The registers are in order.
    pub open spec fn wf(&self) -> bool {
        straddles(self.low as int, self.high as int) && self.zero_run < STUFF_RUN
    }

    /// The count of opposite bits has room for `n` more symbols.
    pub open spec fn has_room(&self, n: int) -> bool {
        self.opposite_bits + 16 * n <= u64::MAX
    }

    /// An encoder at the writer's position, with no zeros before it.
    pub fn new(writer: &'w mut BitWriter) -> (enc: Self)
        ensures
            enc.wf(),
            enc@ == encoding_at(sink_after(0, bits::written(*old(writer)))),
            *final(enc.writer) == *final(writer),
    {
        Self::with_zero_run(writer, 0)
    }

    /// An encoder at the writer's position, behind a run of `zero_run` zeros.
    ///
    /// A run that is already complete is stuffed at once.
    pub fn with_zero_run(writer: &'w mut BitWriter, zero_run: u32) -> (enc: Self)
        ensures
            enc.wf(),
            enc@ == encoding_at(sink_after(zero_run as nat, bits::written(*old(writer)))),
            *final(enc.writer) == *final(writer),
    {
        let mut enc = SacEncoder {
            writer,
            low: 0,
            high: TOP,
            opposite_bits: 0,
            zero_run: if zero_run < STUFF_RUN {
                zero_run
            } else {
                STUFF_RUN
            },
        };
        if enc.zero_run == STUFF_RUN {
            enc.writer.write_bit(true);
            enc.zero_run = 0;
        }
        enc
    }

    /// Put one bit into the sink.
    pub fn emit_bit(&mut self, bit: bool)
        requires
            old(self).zero_run < STUFF_RUN,
        ensures
            final(self).sink() == put(old(self).sink(), bit),
            final(self).zero_run < STUFF_RUN,
            final(self).low == old(self).low,
            final(self).high == old(self).high,
            final(self).opposite_bits == old(self).opposite_bits,
            *final(final(self).writer) == *final(old(self).writer),
    {
        self.writer.write_bit(bit);
        if bit {
            self.zero_run = 0;
        } else {
            self.zero_run = self.zero_run + 1;
            if self.zero_run == STUFF_RUN {
                self.writer.write_bit(true);
                self.zero_run = 0;
            }
        }
    }

    /// Put a bit and the opposite bits that are owed into the sink.
    fn emit_with_opposites(&mut self, bit: bool)
        requires
            old(self).zero_run < STUFF_RUN,
        ensures
            final(self).sink() == put_all(
                old(self).sink(),
                bit_and_opposites(bit, old(self).opposite_bits as nat),
            ),
            final(self).zero_run < STUFF_RUN,
            final(self).low == old(self).low,
            final(self).high == old(self).high,
            final(self).opposite_bits == 0,
            *final(final(self).writer) == *final(old(self).writer),
    {
        let ghost owed = self.opposite_bits;
        self.emit_bit(bit);
        proof {
            let b = bit_and_opposites(bit, 0);
            assert(b.drop_last() =~= Seq::empty());
            reveal_with_fuel(put_all, 2);
        }
        while self.opposite_bits > 0
            invariant
                0 <= self.opposite_bits <= owed,
                self.zero_run < STUFF_RUN,
                self.sink() == put_all(
                    old(self).sink(),
                    bit_and_opposites(bit, (owed - self.opposite_bits) as nat),
                ),
                self.low == old(self).low,
                self.high == old(self).high,
                *final(self.writer) == *final(old(self).writer),
            decreases self.opposite_bits,
        {
            proof {
                let done = (owed - self.opposite_bits) as nat;
                assert(bit_and_opposites(bit, done + 1).drop_last() =~= bit_and_opposites(
                    bit,
                    done,
                ));
                assert(bit_and_opposites(bit, done + 1).last() == !bit);
            }
            self.emit_bit(!bit);
            self.opposite_bits = self.opposite_bits - 1;
        }
    }

    /// Write the symbol `index` of the model `cumf`.
    pub fn encode_symbol(&mut self, index: usize, cumf: &[i64])
        requires
            old(self).wf(),
            old(self).has_room(1),
            is_model(cumf@),
            index + 1 < cumf@.len(),
        ensures
            final(self)@ == encoded(old(self)@, (Symbol { model: cumf@, index: index as int })),
            final(self).wf(),
            final(self).opposite_bits <= old(self).opposite_bits + 16,
            *final(final(self).writer) == *final(old(self).writer),
    {
        let ghost e = self@;
        let ghost c = cumf@;
        let ghost i = index as int;
        let length: i64 = self.high - self.low + 1;
        proof {
            lemma_share(e.low, e.high, c, i);
            assert(c[i + 1] >= 0 && c[i] <= c[0] && 0 < c[0]) by {
                assert(c[i] > c[i + 1]);
                assert(i + 1 < c.len() - 1 ==> c[i + 1] > c[c.len() - 1]);
                assert(i > 0 ==> c[0] > c[i]);
            }
            lemma_product(length as int, c[i] as int);
            lemma_product(length as int, c[i + 1] as int);
            lemma_quotient(length as int, c[i] as int, c[0] as int);
            lemma_quotient(length as int, c[i + 1] as int, c[0] as int);
        }
        self.high = self.low - 1 + (length * cumf[index]) / cumf[0];
        self.low = self.low + (length * cumf[index + 1]) / cumf[0];
        let ghost t = settle(self.low as int, self.high as int, e.pending);
        let ghost mut sent = Seq::<bool>::empty();
        let ghost mut steps: nat = 0;
        proof {
            vstd::arithmetic::power2::lemma2_to64();
            assert(sent + t.bits =~= t.bits);
        }
        loop
            invariant
                0 <= self.low <= self.high <= TOP,
                self.zero_run < STUFF_RUN,
                self.opposite_bits <= e.pending + steps,
                e.pending + 16 <= u64::MAX,
                self.high - self.low + 1 >= vstd::arithmetic::power2::pow2(steps),
                self.sink() == put_all(e.sink, sent),
                ({
                    let r = settle(self.low as int, self.high as int, self.opposite_bits as nat);
                    t == Settled { bits: sent + r.bits, ..r }
                }),
                *final(self.writer) == *final(old(self).writer),
            ensures
                self.wf(),
                self.low == t.low,
                self.high == t.high,
                self.opposite_bits == t.pending,
                self.opposite_bits <= e.pending + 16,
                self.sink() == put_all(e.sink, t.bits),
            decreases 65536 - (self.high - self.low),
        {
            let ghost r = settle(self.low as int, self.high as int, self.opposite_bits as nat);
            proof {
                vstd::arithmetic::power2::lemma2_to64();
                if steps > 16 {
                    vstd::arithmetic::power2::lemma_pow2_strictly_increases(16, steps);
                }
                vstd::arithmetic::power2::lemma_pow2_unfold(steps + 1);
            }
            if self.high < Q2 {
                let ghost b = bit_and_opposites(false, self.opposite_bits as nat);
                self.emit_with_opposites(false);
                proof {
                    crate::sac::inverse::lemma_put_concat(e.sink, sent, b);
                    let q = settle(2 * self.low, 2 * self.high + 1, 0);
                    assert(sent + r.bits =~= (sent + b) + q.bits);
                    sent = sent + b;
                }
            } else if self.low >= Q2 {
                let ghost b = bit_and_opposites(true, self.opposite_bits as nat);
                self.emit_with_opposites(true);
                proof {
                    crate::sac::inverse::lemma_put_concat(e.sink, sent, b);
                    let q = settle(2 * (self.low - Q2), 2 * (self.high - Q2) + 1, 0);
                    assert(sent + r.bits =~= (sent + b) + q.bits);
                    sent = sent + b;
                }
                self.low = self.low - Q2;
                self.high = self.high - Q2;
            } else if self.low >= Q1 && self.high < Q3 {
                proof {
                    if steps == 16 {
                        assert(false);
                    }
                }
                self.opposite_bits = self.opposite_bits + 1;
                self.low = self.low - Q1;
                self.high = self.high - Q1;
            } else {
                proof {
                    assert(sent + r.bits =~= sent);
                }
                break;
            }
            self.low = self.low * 2;
            self.high = 2 * self.high + 1;
            proof {
                steps = steps + 1;
            }
        }
    }

    /// Write the bits that settle every symbol written so far, and start over
    /// with a fresh interval.
    pub fn flush(&mut self)
        requires
            old(self).wf(),
            old(self).opposite_bits < u64::MAX,
        ensures
            final(self)@ == flushed(old(self)@),
            final(self).wf(),
            *final(final(self).writer) == *final(old(self).writer),
    {
        self.opposite_bits = self.opposite_bits + 1;
        let bit = self.low >= Q1;
        self.emit_with_opposites(bit);
        self.low = 0;
        self.high = TOP;
    }
}

/// Interval lengths times frequencies fit comfortably.
proof fn lemma_product(n: int, c: int)
    requires
        0 <= n <= 65536,
        0 <= c <= 16383,
    ensures
        0 <= n * c <= 1073741824,
{
    assert(0 <= n * c <= 1073741824) by (nonlinear_arith)
        requires
            0 <= n <= 65536,
            0 <= c <= 16383,
    ;
}

proof fn lemma_quotient(n: int, c: int, t: int)
    requires
        0 <= n <= 65536,
        0 <= c <= t <= 16383,
        0 < t,
    ensures
        0 <= (n * c) / t <= n,
{
    assert(0 <= (n * c) / t <= n) by (nonlinear_arith)
        requires
            0 <= n,
            0 <= c <= t,
            0 < t,
    {
        assert(n * c <= n * t);
        assert((n * t) / t == n);
    }
}

/// The frequency that a decoder looks up is a valid one.
proof fn lemma_frequency(d: Decoding, c: Seq<i64>)
    requires
        is_decoding(d),
        is_model(c),
    ensures
        (d.value - d.low + 1) * c[0] >= 1,
        0 <= frequency(d, c) < c[0],
{
    assert(c[0] > c[c.len() - 1]);
    let n = d.high - d.low + 1;
    let m = d.value - d.low + 1;
    let t = c[0] as int;
    assert(m * t >= 1 && 0 <= (m * t - 1) / n < t) by (nonlinear_arith)
        requires
            1 <= m <= n,
            t > 0,
    {
        assert(m * t >= 1);
        assert(m * t <= n * t);
    }
}

} // verus!
