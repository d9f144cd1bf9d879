//! Bit strings, and what the host framework's bit reader and writer do to them.
//!
//! Every syntax structure of the codec is stated as a function of a bit
//! string: a `Seq<bool>` whose element 0 is the bit that comes first on the
//! wire. Fields are unsigned integers, most significant bit first.

use crate::error::Error;
use oxideav_core::bits::{BitReader, BitWriter};
use oxideav_core::Error as CoreError;
use vstd::arithmetic::power2::pow2;
use vstd::prelude::*;

verus! {

/// The host framework's most-significant-bit-first reader over a byte slice.
#[verifier::external_type_specification]
#[verifier::external_body]
pub struct ExBitReader<'a>(BitReader<'a>);

/// The host framework's most-significant-bit-first writer.
#[verifier::external_type_specification]
#[verifier::external_body]
pub struct ExBitWriter(BitWriter);

/// The host framework's error, which the reader returns when it runs dry.
#[verifier::external_type_specification]
#[verifier::external_body]
pub struct ExCoreError(CoreError);

/// All bits of a reader's data, first bit first.
pub uninterp spec fn stream(r: BitReader) -> Seq<bool>;

/// The number of bits that a reader has delivered so far.
pub uninterp spec fn bits_read(r: BitReader) -> nat;

/// The bits that a writer has collected so far, first bit first.
pub uninterp spec fn written(w: BitWriter) -> Seq<bool>;

/// 1 for a set bit, 0 for a clear one.
pub open spec fn bit_value(b: bool) -> nat {
    if b {
        1
    } else {
        0
    }
}

/// The unsigned integer that a bit string spells, most significant bit first.
pub open spec fn value_of(s: Seq<bool>) -> nat
    decreases s.len(),
{
    if s.len() == 0 {
        0
    } else {
        2 * value_of(s.drop_last()) + bit_value(s.last())
    }
}

/// The low `n` bits of `v`, most significant bit first.
pub open spec fn bits_of(v: nat, n: nat) -> Seq<bool>
    decreases n,
{
    if n == 0 {
        Seq::empty()
    } else {
        bits_of(v / 2, (n - 1) as nat).push(v % 2 == 1)
    }
}

/// The bits of a byte string, byte after byte.
pub open spec fn bits_of_bytes(data: Seq<u8>) -> Seq<bool> {
    Seq::new(8 * data.len(), |k: int| bits_of(data[k / 8] as nat, 8)[k % 8])
}

/// The `n`-bit field that starts `at` bits into `s`.
pub open spec fn field(s: Seq<bool>, at: int, n: int) -> nat {
    value_of(s.subrange(at, at + n))
}

/// The bits that a reader has still to deliver, next bit first.
pub open spec fn unread(r: BitReader) -> Seq<bool> {
    if bits_read(r) <= stream(r).len() {
        stream(r).skip(bits_read(r) as int)
    } else {
        Seq::empty()
    }
}

/// At least `n` bits of a stream lie at or behind bit `at`.
pub open spec fn has_bits(s: Seq<bool>, at: int, n: int) -> bool {
    at + n <= s.len()
}

/// `new` is `r` after `n` more bits have been delivered.
pub open spec fn advanced(r: BitReader, new: BitReader, n: int) -> bool {
    &&& stream(new) == stream(r)
    &&& bits_read(new) == bits_read(r) + n
}

/// `new` is `r` after some bits, possibly none, have been delivered.
pub open spec fn moved_on(r: BitReader, new: BitReader) -> bool {
    &&& stream(new) == stream(r)
    &&& bits_read(new) >= bits_read(r)
}

/// `new` is `r` after exactly those bits have been delivered that `r` had still
/// to deliver and `new` has not.
pub open spec fn drained(r: BitReader, new: BitReader) -> bool {
    &&& moved_on(r, new)
    &&& bits_read(new) + unread(new).len() == bits_read(r) + unread(r).len()
}

/// `res` is what reading a structure gives: `outcome` holds its value and the
/// bit behind it, or what is wrong with it.
pub open spec fn read_as<T>(
    outcome: Result<(T, int), Error>,
    res: Result<T, Error>,
    before: BitReader,
    after: BitReader,
) -> bool {
    &&& moved_on(before, after)
    &&& match outcome {
        Ok((v, end)) => res == Ok::<T, Error>(v) && bits_read(after) == end,
        Err(e) => res == Err::<T, Error>(e),
    }
}

/// The bit at `at`, and the bit behind it.
pub open spec fn flag_at(s: Seq<bool>, at: int) -> Result<(bool, int), Error> {
    if has_bits(s, at, 1) {
        Ok((s[at], at + 1))
    } else {
        Err(Error::UnexpectedEof)
    }
}

/// The `n`-bit field at `at`, and the bit behind it.
pub open spec fn field_at(s: Seq<bool>, at: int, n: int) -> Result<(nat, int), Error> {
    if has_bits(s, at, n) {
        Ok((field(s, at, n), at + n))
    } else {
        Err(Error::UnexpectedEof)
    }
}

/// `BitReader::new`: a reader that will deliver exactly the bits of `data`.
pub assume_specification<'a>[ BitReader::<'a>::new ](data: &'a [u8]) -> (r: BitReader<'a>)
    ensures
        stream(r) == bits_of_bytes(data@),
        bits_read(r) == 0,
;

/// `BitReader::read_u32`: delivers an `n`-bit field if that many bits are
/// left, and otherwise fails without moving.
pub assume_specification<'a>[ BitReader::<'a>::read_u32 ](
    r: &mut BitReader<'a>,
    n: u32,
) -> (res: Result<u32, CoreError>)
    requires
        1 <= n <= 32,
    ensures
        res is Ok <==> has_bits(stream(*old(r)), bits_read(*old(r)) as int, n as int),
        res matches Ok(v) ==> v == field(
            stream(*old(r)),
            bits_read(*old(r)) as int,
            n as int,
        ) && advanced(*old(r), *final(r), n as int),
        res is Err ==> advanced(*old(r), *final(r), 0),
;

/// `BitReader::read_bit`: delivers the next bit if one is left, and otherwise
/// fails without moving.
pub assume_specification<'a>[ BitReader::<'a>::read_bit ](r: &mut BitReader<'a>) -> (res: Result<
    bool,
    CoreError,
>)
    ensures
        res is Ok <==> has_bits(stream(*old(r)), bits_read(*old(r)) as int, 1),
        res matches Ok(b) ==> b == stream(*old(r))[bits_read(*old(r)) as int] && advanced(
            *old(r),
            *final(r),
            1,
        ),
        res is Err ==> advanced(*old(r), *final(r), 0),
;

/// `BitReader::skip`: passes over `n` bits if that many are left, and otherwise
/// fails without moving.
pub assume_specification<'a>[ BitReader::<'a>::skip ](r: &mut BitReader<'a>, n: u32) -> (res: Result<
    (),
    CoreError,
>)
    requires
        1 <= n <= 32,
    ensures
        res is Ok <==> has_bits(stream(*old(r)), bits_read(*old(r)) as int, n as int),
        advanced(
            *old(r),
            *final(r),
            if res is Ok {
                n as int
            } else {
                0
            },
        ),
;

/// `BitReader::bit_position`: the number of bits delivered so far. The reader
/// counts whole bytes ahead of that, up to 64 bits.
pub assume_specification<'a>[ BitReader::<'a>::bit_position ](r: &BitReader<'a>) -> (n: u64)
    requires
        bits_read(*r) + 64 <= u64::MAX,
    ensures
        n == bits_read(*r),
;

/// `BitReader::is_byte_aligned`: whether the bits delivered so far fill whole
/// bytes.
pub assume_specification<'a>[ BitReader::<'a>::is_byte_aligned ](r: &BitReader<'a>) -> (aligned:
    bool)
    ensures
        aligned == (bits_read(*r) % 8 == 0),
;

/// `BitWriter::write_bit`: appends one bit.
pub assume_specification[ BitWriter::write_bit ](w: &mut BitWriter, bit: bool)
    ensures
        written(*final(w)) == written(*old(w)).push(bit),
;

/// `BitWriter::write_bits`: appends the low `n` bits of `value`.
pub assume_specification[ BitWriter::write_bits ](w: &mut BitWriter, value: u32, n: u32)
    requires
        n <= 32,
    ensures
        written(*final(w)) == written(*old(w)) + bits_of(value as nat, n as nat),
;

/// `BitWriter::is_byte_aligned`: whether the bits so far fill whole bytes.
pub assume_specification[ BitWriter::is_byte_aligned ](w: &BitWriter) -> (aligned: bool)
    ensures
        aligned == (written(*w).len() % 8 == 0),
;

/// `t` is the beginning of `s`.
pub open spec fn begins(t: Seq<bool>, s: Seq<bool>) -> bool {
    t.len() <= s.len() && t == s.subrange(0, t.len() as int)
}

/// A field within the beginning of a stream is the stream's.
pub proof fn lemma_field_begins(t: Seq<bool>, s: Seq<bool>, at: int, n: int)
    requires
        begins(t, s),
        0 <= at,
        0 <= n,
        has_bits(t, at, n),
    ensures
        field(t, at, n) == field(s, at, n),
{
    assert(t.subrange(at, at + n) =~= s.subrange(at, at + n));
}

/// The bits of the first bytes are the first bits.
pub proof fn lemma_bits_begin(data: Seq<u8>, n: int)
    requires
        0 <= n <= data.len(),
    ensures
        begins(bits_of_bytes(data.subrange(0, n)), bits_of_bytes(data)),
{
    let t = bits_of_bytes(data.subrange(0, n));
    assert(t =~= bits_of_bytes(data).subrange(0, t.len() as int));
}

/// Read an `n`-bit field.
pub fn read_field(r: &mut BitReader<'_>, n: u32) -> (res: Result<u32, Error>)
    requires
        1 <= n <= 32,
    ensures
        res == (if has_bits(stream(*old(r)), bits_read(*old(r)) as int, n as int) {
            Ok(field(stream(*old(r)), bits_read(*old(r)) as int, n as int) as u32)
        } else {
            Err(Error::UnexpectedEof)
        }),
        res matches Ok(v) ==> v == field(
            stream(*old(r)),
            bits_read(*old(r)) as int,
            n as int,
        ) && v < pow2(n as nat),
        advanced(
            *old(r),
            *final(r),
            if res is Ok {
                n as int
            } else {
                0
            },
        ),
{
    match r.read_u32(n) {
        Ok(v) => {
            proof {
                let at = bits_read(*old(r)) as int;
                lemma_value_bound(stream(*old(r)).subrange(at, at + n));
            }
            Ok(v)
        },
        Err(_) => Err(Error::UnexpectedEof),
    }
}

/// Read one bit.
pub fn read_flag(r: &mut BitReader<'_>) -> (res: Result<bool, Error>)
    ensures
        res == (if has_bits(stream(*old(r)), bits_read(*old(r)) as int, 1) {
            Ok(stream(*old(r))[bits_read(*old(r)) as int])
        } else {
            Err(Error::UnexpectedEof)
        }),
        advanced(
            *old(r),
            *final(r),
            if res is Ok {
                1
            } else {
                0
            },
        ),
{
    match r.read_bit() {
        Ok(b) => Ok(b),
        Err(_) => Err(Error::UnexpectedEof),
    }
}

/// Pass over `n` bits.
pub fn skip_field(r: &mut BitReader<'_>, n: u32) -> (res: Result<(), Error>)
    requires
        1 <= n <= 32,
    ensures
        res == (if has_bits(stream(*old(r)), bits_read(*old(r)) as int, n as int) {
            Ok(())
        } else {
            Err(Error::UnexpectedEof)
        }),
        advanced(
            *old(r),
            *final(r),
            if res is Ok {
                n as int
            } else {
                0
            },
        ),
{
    match r.skip(n) {
        Ok(()) => Ok(()),
        Err(_) => Err(Error::UnexpectedEof),
    }
}

/// A reader that has delivered a bit has one bit fewer ahead of it.
pub proof fn lemma_unread_step(r: BitReader, new: BitReader)
    requires
        has_bits(stream(r), bits_read(r) as int, 1),
        advanced(r, new, 1),
    ensures
        unread(r).len() > 0,
        unread(r)[0] == stream(r)[bits_read(r) as int],
        unread(new) == unread(r).skip(1),
{
    assert(unread(new) =~= unread(r).skip(1));
}

/// An `n`-bit string spells a number below 2 to the power of `n`.
pub proof fn lemma_value_bound(s: Seq<bool>)
    ensures
        value_of(s) < pow2(s.len()),
    decreases s.len(),
{
    vstd::arithmetic::power2::lemma2_to64();
    if s.len() > 0 {
        lemma_value_bound(s.drop_last());
        vstd::arithmetic::power2::lemma_pow2_unfold(s.len());
    }
}

/// The value of two bit strings, one behind the other.
pub proof fn lemma_value_concat(a: Seq<bool>, b: Seq<bool>)
    ensures
        value_of(a + b) == value_of(a) * pow2(b.len()) + value_of(b),
    decreases b.len(),
{
    vstd::arithmetic::power2::lemma2_to64();
    if b.len() == 0 {
        assert(a + b =~= a);
    } else {
        assert((a + b).drop_last() =~= a + b.drop_last());
        lemma_value_concat(a, b.drop_last());
        vstd::arithmetic::power2::lemma_pow2_unfold(b.len());
        let p = pow2(b.drop_last().len());
        assert(value_of(a) * (2 * p) == 2 * (value_of(a) * p)) by (nonlinear_arith);
    }
}

/// The value of a bit in front of a bit string.
pub proof fn lemma_value_cons(b: bool, s: Seq<bool>)
    ensures
        value_of(seq![b] + s) == bit_value(b) * pow2(s.len()) + value_of(s),
{
    lemma_value_concat(seq![b], s);
    assert(seq![b].drop_last() =~= Seq::<bool>::empty());
    assert(value_of(seq![b]) == bit_value(b)) by {
        reveal_with_fuel(value_of, 2);
    }
}

/// Writing a number as `n` bits and reading it back gives the number, where it
/// fits.
pub proof fn lemma_value_of_bits(v: nat, n: nat)
    requires
        v < pow2(n),
    ensures
        bits_of(v, n).len() == n,
        value_of(bits_of(v, n)) == v,
    decreases n,
{
    vstd::arithmetic::power2::lemma2_to64();
    if n > 0 {
        vstd::arithmetic::power2::lemma_pow2_unfold(n);
        lemma_value_of_bits(v / 2, (n - 1) as nat);
        assert(bits_of(v, n).drop_last() =~= bits_of(v / 2, (n - 1) as nat));
    }
}

/// A field inside a field is a quotient's remainder.
pub proof fn lemma_subfield(s: Seq<bool>, at: int, n: int, i: int, m: int)
    requires
        0 <= at,
        0 <= i,
        0 <= m,
        i + m <= n,
        has_bits(s, at, n),
    ensures
        field(s, at + i, m) == (field(s, at, n) / pow2((n - i - m) as nat)) % pow2(m as nat),
{
    let whole = s.subrange(at, at + n);
    let a = s.subrange(at, at + i);
    let b = s.subrange(at + i, at + i + m);
    let c = s.subrange(at + i + m, at + n);
    assert(whole =~= (a + b) + c);
    lemma_value_concat(a + b, c);
    lemma_value_concat(a, b);
    lemma_value_bound(b);
    lemma_value_bound(c);
    let p = pow2(b.len());
    let q = pow2(c.len());
    vstd::arithmetic::power2::lemma_pow2_pos(b.len());
    vstd::arithmetic::power2::lemma_pow2_pos(c.len());
    let ab = value_of(a + b);
    assert((ab * q + value_of(c)) / q == ab) by (nonlinear_arith)
        requires
            0 <= value_of(c) < q,
    ;
    assert((value_of(a) * p + value_of(b)) % p == value_of(b)) by (nonlinear_arith)
        requires
            0 <= value_of(b) < p,
    ;
}

/// A one-bit field is a bit.
pub proof fn lemma_bit_field(s: Seq<bool>, at: int)
    requires
        0 <= at,
        has_bits(s, at, 1),
    ensures
        field(s, at, 1) == bit_value(s[at]),
{
    let b = s.subrange(at, at + 1);
    assert(b.drop_last() =~= Seq::<bool>::empty());
    reveal_with_fuel(value_of, 2);
}

/// The `m`-bit field that starts `i` bits into the `n`-bit field `raw`.
pub(crate) fn subfield(
    raw: u32,
    n: u32,
    i: u32,
    m: u32,
    Ghost(s): Ghost<Seq<bool>>,
    Ghost(at): Ghost<int>,
) -> (v: u32)
    requires
        0 <= at,
        1 <= m,
        i + m <= n <= 32,
        has_bits(s, at, n as int),
        raw == field(s, at, n as int),
    ensures
        v == field(s, at + i, m as int),
        v < pow2(m as nat),
{
    let below: u32 = n - i - m;
    proof {
        lemma_subfield(s, at, n as int, i as int, m as int);
        vstd::bits::lemma_u32_shr_is_div(raw, below);
        vstd::arithmetic::power2::lemma_pow2_pos(m as nat);
    }
    let shifted: u32 = raw >> below;
    if m == 32 {
        proof {
            vstd::arithmetic::power2::lemma2_to64();
            vstd::arithmetic::div_mod::lemma_small_mod(shifted as nat, pow2(32));
        }
        shifted
    } else {
        proof {
            vstd::bits::lemma_u32_low_bits_mask_is_mod(shifted, m as nat);
            vstd::arithmetic::power2::lemma2_to64();
            vstd::arithmetic::power2::lemma_pow2_strictly_increases(m as nat, 32);
            vstd::bits::lemma_u32_shl_is_mul(1, m);
        }
        shifted & ((1u32 << m) - 1)
    }
}

/// The bit that lies `i` bits into the `n`-bit field `raw`.
pub(crate) fn subflag(
    raw: u32,
    n: u32,
    i: u32,
    Ghost(s): Ghost<Seq<bool>>,
    Ghost(at): Ghost<int>,
) -> (b: bool)
    requires
        0 <= at,
        i < n <= 32,
        has_bits(s, at, n as int),
        raw == field(s, at, n as int),
    ensures
        b == s[at + i],
{
    let v: u32 = subfield(raw, n, i, 1, Ghost(s), Ghost(at));
    proof {
        lemma_bit_field(s, at + i);
    }
    v == 1
}

} // verus!
