//! Variable-length codes.
//!
//! A table holds for each of its entries a code and the code's length. Codes
//! are read bit by bit until one of the table's is complete.

use crate::bits;
use crate::bits::read_flag;
use crate::error::Error;
use oxideav_core::bits::BitReader;
use vstd::prelude::*;

verus! {

/// Code lengths of MCBPC in an INTRA picture.
pub const MCBPC_INTRA_LENGTHS: [u8; 9] = [
    1, 3, 3, 3, 4, 6, 6, 6, 9,
];

/// Codes of MCBPC in an INTRA picture, at the low end.
pub const MCBPC_INTRA_CODES: [u16; 9] = [
    1, 1, 2, 3, 1, 1, 2, 3, 1,
];

/// Code lengths of MCBPC in an INTER picture.
pub const MCBPC_INTER_LENGTHS: [u8; 25] = [
    1, 4, 4, 6, 5, 8, 8, 7, 3, 7, 7, 9, 6, 9, 9, 9, 3, 7, 7, 8, 9, 11, 13, 13, 13,
];

/// Codes of MCBPC in an INTER picture, at the low end.
pub const MCBPC_INTER_CODES: [u16; 25] = [
    1, 3, 2, 5, 3, 4, 3, 3, 3, 7, 6, 5, 4, 4, 3, 2, 2, 5, 4, 5, 1, 2, 12, 14, 15,
];

/// Code lengths of CBPY, by the pattern of an INTRA macroblock.
pub const CBPY_LENGTHS: [u8; 16] = [
    4, 5, 5, 4, 5, 4, 6, 4, 5, 6, 4, 4, 4, 4, 4, 2,
];

/// Codes of CBPY, by the pattern of an INTRA macroblock, at the low end.
pub const CBPY_CODES: [u16; 16] = [
    3, 5, 4, 9, 3, 7, 2, 11, 2, 3, 5, 10, 4, 8, 6, 3,
];

/// Code lengths of a vector difference, by its magnitude and without its sign.
pub const MVD_LENGTHS: [u8; 33] = [
    1, 2, 3, 4, 6, 7, 7, 7, 9, 9, 9, 10, 10, 10, 10, 10, 10, 10, 10, 10, 10, 10, 10, 10, 10, 11,
    11, 11, 11, 11, 11, 12, 12,
];

/// Codes of a vector difference, by its magnitude and without its sign, at the low end.
pub const MVD_CODES: [u16; 33] = [
    1, 1, 1, 1, 3, 5, 4, 3, 11, 10, 9, 17, 16, 15, 14, 13, 12, 11, 10, 9, 8, 7, 6, 5, 4, 7, 6,
    5, 4, 3, 2, 3, 2,
];

/// Code lengths of a coefficient event, by its table index, and of the escape.
pub const TCOEF_LENGTHS: [u8; 103] = [
    2, 4, 6, 7, 8, 9, 9, 10, 10, 11, 11, 11, 3, 6, 8, 10, 11, 12, 4, 8, 10, 12, 5, 9, 10, 5, 9,
    12, 5, 10, 12, 6, 10, 12, 6, 10, 6, 10, 6, 10, 7, 12, 7, 7, 8, 8, 9, 9, 9, 9, 9, 9, 9, 9,
    11, 11, 12, 12, 4, 9, 11, 6, 11, 6, 6, 6, 7, 7, 7, 7, 8, 8, 8, 8, 8, 8, 8, 8, 9, 9, 9, 9, 9,
    9, 9, 9, 10, 10, 10, 10, 11, 11, 11, 11, 12, 12, 12, 12, 12, 12, 12, 12, 7,
];

/// Codes of a coefficient event, by its table index, and of the escape, at the low end.
pub const TCOEF_CODES: [u16; 103] = [
    2, 15, 21, 23, 31, 37, 36, 33, 32, 7, 6, 32, 6, 20, 30, 15, 33, 80, 14, 29, 14, 81, 13, 35,
    13, 12, 34, 82, 11, 12, 83, 19, 11, 84, 18, 10, 17, 9, 16, 8, 22, 85, 21, 20, 28, 27, 33,
    32, 31, 30, 29, 28, 27, 26, 34, 35, 86, 87, 7, 25, 5, 15, 4, 14, 13, 12, 19, 18, 17, 16, 26,
    25, 24, 23, 22, 21, 20, 19, 24, 23, 22, 21, 20, 19, 18, 17, 7, 6, 5, 4, 36, 37, 38, 39, 88,
    89, 90, 91, 92, 93, 94, 95, 3,
];

/// Code lengths of a coefficient event of Advanced INTRA Coding, by its table index, and of the
/// escape.
pub const TCOEF_AIC_LENGTHS: [u8; 103] = [
    2, 3, 4, 5, 5, 6, 6, 6, 7, 8, 9, 9, 9, 9, 9, 9, 9, 9, 11, 11, 12, 12, 12, 12, 12, 4, 6, 7,
    8, 10, 11, 12, 5, 7, 10, 10, 6, 8, 10, 12, 6, 9, 11, 7, 9, 12, 8, 10, 8, 10, 9, 10, 9, 11,
    10, 10, 10, 11, 4, 6, 7, 8, 9, 9, 10, 11, 11, 12, 6, 9, 10, 11, 6, 9, 11, 6, 10, 12, 7, 10,
    7, 12, 7, 12, 8, 12, 8, 8, 8, 8, 8, 8, 9, 9, 9, 9, 9, 11, 11, 12, 12, 12, 7,
];

/// Codes of a coefficient event of Advanced INTRA Coding, by its table index, and of the
/// escape, at the low end.
pub const TCOEF_AIC_CODES: [u16; 103] = [
    2, 6, 14, 12, 13, 16, 17, 18, 22, 27, 32, 33, 26, 27, 28, 29, 30, 31, 35, 34, 87, 86, 85,
    84, 83, 15, 20, 20, 30, 15, 33, 80, 11, 21, 14, 9, 21, 29, 13, 81, 19, 35, 7, 23, 34, 82,
    28, 12, 31, 11, 37, 10, 36, 6, 33, 32, 8, 32, 7, 12, 16, 19, 17, 18, 4, 39, 38, 95, 15, 19,
    5, 37, 14, 20, 36, 13, 6, 94, 17, 7, 19, 93, 18, 92, 20, 91, 21, 26, 25, 24, 23, 22, 25, 21,
    22, 24, 23, 4, 5, 88, 89, 90, 3,
];

/// What reading a code gives.
pub enum Code {
    /// The entry, and the bit behind its code.
    Entry(int, int),
    /// No code of the table has been completed by as many bits as the longest
    /// has.
    Unknown,
    /// The stream ends before a code is complete.
    EndOfStream,
}

/// The first entry from `i` on whose code is `v` in `n` bits.
pub open spec fn entry_of(
    lengths: Seq<u8>,
    codes: Seq<u16>,
    n: int,
    v: nat,
    i: int,
) -> Option<int>
    decreases lengths.len() - i,
{
    if i < 0 || i >= lengths.len() {
        None
    } else if lengths[i] == n && codes[i] == v {
        Some(i)
    } else {
        entry_of(lengths, codes, n, v, i + 1)
    }
}

/// What reading a code at bit `at` gives, where no code of fewer than `n` bits
/// matches.
pub open spec fn code_from(
    s: Seq<bool>,
    at: int,
    lengths: Seq<u8>,
    codes: Seq<u16>,
    longest: int,
    n: int,
) -> Code
    decreases longest + 1 - n,
{
    if n > longest {
        Code::Unknown
    } else if !bits::has_bits(s, at, n) {
        Code::EndOfStream
    } else {
        match entry_of(lengths, codes, n, bits::field(s, at, n), 0) {
            Some(i) => Code::Entry(i, at + n),
            None => code_from(s, at, lengths, codes, longest, n + 1),
        }
    }
}

/// What reading a code at bit `at` gives.
pub open spec fn code_at(
    s: Seq<bool>,
    at: int,
    lengths: Seq<u8>,
    codes: Seq<u16>,
    longest: int,
) -> Code {
    code_from(s, at, lengths, codes, longest, 1)
}

/// `res` is what reading `code` from a table of `entries` entries gives.
pub open spec fn code_read(
    code: Code,
    entries: int,
    res: Result<Option<usize>, Error>,
    before: BitReader,
    after: BitReader,
) -> bool {
    &&& bits::moved_on(before, after)
    &&& match code {
        Code::Entry(i, end) => res == Ok::<_, Error>(Some(i as usize)) && 0 <= i < entries
            && bits::bits_read(before) < end == bits::bits_read(after),
        Code::Unknown => res == Ok::<Option<usize>, Error>(None),
        Code::EndOfStream => res == Err::<Option<usize>, _>(Error::UnexpectedEof),
    }
}

/// Look a code of `n` bits up.
fn look_up(lengths: &[u8], codes: &[u16], n: u32, v: u32) -> (e: Option<usize>)
    requires
        lengths@.len() == codes@.len(),
    ensures
        e is Some <==> entry_of(lengths@, codes@, n as int, v as nat, 0) is Some,
        e matches Some(i) ==> entry_of(lengths@, codes@, n as int, v as nat, 0) == Some(i as int)
            && i < lengths@.len(),
{
    let mut i: usize = 0;
    while i < lengths.len()
        invariant
            i <= lengths@.len(),
            lengths@.len() == codes@.len(),
            entry_of(lengths@, codes@, n as int, v as nat, 0) == entry_of(
                lengths@,
                codes@,
                n as int,
                v as nat,
                i as int,
            ),
        decreases lengths@.len() - i,
    {
        if lengths[i] as u32 == n && codes[i] as u32 == v {
            return Some(i);
        }
        i = i + 1;
    }
    None
}

/// The next bit appended to a field.
proof fn lemma_longer_field(s: Seq<bool>, at: int, n: int)
    requires
        0 <= at,
        0 <= n,
        bits::has_bits(s, at, n + 1),
    ensures
        bits::field(s, at, n + 1) == 2 * bits::field(s, at, n) + bits::bit_value(s[at + n]),
{
    let f = s.subrange(at, at + n + 1);
    assert(f.drop_last() =~= s.subrange(at, at + n));
}

/// Read a code; `None` where the table has no such code.
#[verifier::spinoff_prover]
pub fn read_code(
    r: &mut BitReader<'_>,
    lengths: &[u8],
    codes: &[u16],
    longest: u32,
) -> (res: Result<Option<usize>, Error>)
    requires
        lengths@.len() == codes@.len(),
        longest <= 16,
    ensures
        code_read(
            code_at(
                bits::stream(*old(r)),
                bits::bits_read(*old(r)) as int,
                lengths@,
                codes@,
                longest as int,
            ),
            lengths@.len() as int,
            res,
            *old(r),
            *final(r),
        ),
{
    let ghost s = bits::stream(*r);
    let ghost at = bits::bits_read(*r) as int;
    let mut v: u32 = 0;
    let mut n: u32 = 0;
    proof {
        vstd::arithmetic::power2::lemma2_to64();
    }
    while n < longest
        invariant
            n <= longest <= 16,
            lengths@.len() == codes@.len(),
            s == bits::stream(*old(r)),
            at == bits::bits_read(*old(r)),
            bits::advanced(*old(r), *r, n as int),
            n == 0 || bits::has_bits(s, at, n as int),
            n == 0 ==> v == 0,
            n > 0 ==> v == bits::field(s, at, n as int),
            v < vstd::arithmetic::power2::pow2(n as nat),
            code_at(s, at, lengths@, codes@, longest as int) == code_from(
                s,
                at,
                lengths@,
                codes@,
                longest as int,
                n + 1,
            ),
        decreases longest - n,
    {
        let bit: bool = match read_flag(r) {
            Ok(b) => b,
            Err(e) => {
                return Err(e);
            },
        };
        proof {
            vstd::arithmetic::power2::lemma2_to64();
            vstd::arithmetic::power2::lemma_pow2_unfold(n as nat + 1);
            if n < 16 {
                vstd::arithmetic::power2::lemma_pow2_strictly_increases(n as nat, 17);
            }
            lemma_longer_field(s, at, n as int);
            if n == 0 {
                assert(s.subrange(at, at) =~= Seq::<bool>::empty());
            }
        }
        v = 2 * v + if bit {
            1
        } else {
            0
        };
        n = n + 1;
        match look_up(lengths, codes, n, v) {
            Some(i) => {
                return Ok(Some(i));
            },
            None => {},
        }
    }
    Ok(None)
}

/// A code ends behind its start and inside the stream.
proof fn lemma_code_end(
    s: Seq<bool>,
    at: int,
    lengths: Seq<u8>,
    codes: Seq<u16>,
    longest: int,
    n: int,
)
    ensures
        code_from(s, at, lengths, codes, longest, n) matches Code::Entry(i, end) ==> at + n <= end
            <= s.len(),
    decreases longest + 1 - n,
{
    if n <= longest && bits::has_bits(s, at, n) {
        lemma_code_end(s, at, lengths, codes, longest, n + 1);
    }
}

/// MCBPC ends behind its start and inside the stream.
pub proof fn lemma_mcbpc_end(s: Seq<bool>, at: int)
    ensures
        mcbpc_intra_code(s, at) matches Code::Entry(i, end) ==> at < end <= s.len(),
        mcbpc_inter_code(s, at) matches Code::Entry(i, end) ==> at < end <= s.len(),
{
    reveal(mcbpc_intra_code);
    reveal(mcbpc_inter_code);
    lemma_code_end(s, at, MCBPC_INTRA_LENGTHS@, MCBPC_INTRA_CODES@, 9, 1);
    lemma_code_end(s, at, MCBPC_INTER_LENGTHS@, MCBPC_INTER_CODES@, 13, 1);
}

/// The code of MCBPC in an INTRA picture at bit `at`.
#[verifier::opaque]
pub open spec fn mcbpc_intra_code(s: Seq<bool>, at: int) -> Code {
    code_at(s, at, MCBPC_INTRA_LENGTHS@, MCBPC_INTRA_CODES@, 9)
}

/// Read a code of MCBPC in an INTRA picture.
pub fn read_mcbpc_intra_code(r: &mut BitReader<'_>) -> (res: Result<Option<usize>, Error>)
    ensures
        code_read(
            mcbpc_intra_code(bits::stream(*old(r)), bits::bits_read(*old(r)) as int),
            9,
            res,
            *old(r),
            *final(r),
        ),
{
    proof {
        reveal(mcbpc_intra_code);
    }
    read_code(r, &MCBPC_INTRA_LENGTHS, &MCBPC_INTRA_CODES, 9)
}

/// The code of MCBPC in an INTER picture at bit `at`.
#[verifier::opaque]
pub open spec fn mcbpc_inter_code(s: Seq<bool>, at: int) -> Code {
    code_at(s, at, MCBPC_INTER_LENGTHS@, MCBPC_INTER_CODES@, 13)
}

/// Read a code of MCBPC in an INTER picture.
pub fn read_mcbpc_inter_code(r: &mut BitReader<'_>) -> (res: Result<Option<usize>, Error>)
    ensures
        code_read(
            mcbpc_inter_code(bits::stream(*old(r)), bits::bits_read(*old(r)) as int),
            25,
            res,
            *old(r),
            *final(r),
        ),
{
    proof {
        reveal(mcbpc_inter_code);
    }
    read_code(r, &MCBPC_INTER_LENGTHS, &MCBPC_INTER_CODES, 13)
}

/// The code of CBPY at bit `at`.
#[verifier::opaque]
pub open spec fn cbpy_code(s: Seq<bool>, at: int) -> Code {
    code_at(s, at, CBPY_LENGTHS@, CBPY_CODES@, 6)
}

/// Read a code of CBPY.
pub fn read_cbpy_code(r: &mut BitReader<'_>) -> (res: Result<Option<usize>, Error>)
    ensures
        code_read(
            cbpy_code(bits::stream(*old(r)), bits::bits_read(*old(r)) as int),
            16,
            res,
            *old(r),
            *final(r),
        ),
{
    proof {
        reveal(cbpy_code);
    }
    read_code(r, &CBPY_LENGTHS, &CBPY_CODES, 6)
}

/// The code of a vector difference's magnitude at bit `at`.
#[verifier::opaque]
pub open spec fn mvd_code(s: Seq<bool>, at: int) -> Code {
    code_at(s, at, MVD_LENGTHS@, MVD_CODES@, 12)
}

/// Read a code of a vector difference's magnitude.
pub fn read_mvd_code(r: &mut BitReader<'_>) -> (res: Result<Option<usize>, Error>)
    ensures
        code_read(
            mvd_code(bits::stream(*old(r)), bits::bits_read(*old(r)) as int),
            33,
            res,
            *old(r),
            *final(r),
        ),
{
    proof {
        reveal(mvd_code);
    }
    read_code(r, &MVD_LENGTHS, &MVD_CODES, 12)
}

/// The code of a coefficient event at bit `at`.
#[verifier::opaque]
pub open spec fn tcoef_code(s: Seq<bool>, at: int) -> Code {
    code_at(s, at, TCOEF_LENGTHS@, TCOEF_CODES@, 12)
}

/// Read a code of a coefficient event.
pub fn read_tcoef_code(r: &mut BitReader<'_>) -> (res: Result<Option<usize>, Error>)
    ensures
        code_read(
            tcoef_code(bits::stream(*old(r)), bits::bits_read(*old(r)) as int),
            103,
            res,
            *old(r),
            *final(r),
        ),
{
    proof {
        reveal(tcoef_code);
    }
    read_code(r, &TCOEF_LENGTHS, &TCOEF_CODES, 12)
}

/// The code of a coefficient event of Advanced INTRA Coding at bit `at`.
#[verifier::opaque]
pub open spec fn tcoef_aic_code(s: Seq<bool>, at: int) -> Code {
    code_at(s, at, TCOEF_AIC_LENGTHS@, TCOEF_AIC_CODES@, 12)
}

/// Read a code of a coefficient event of Advanced INTRA Coding.
pub fn read_tcoef_aic_code(r: &mut BitReader<'_>) -> (res: Result<Option<usize>, Error>)
    ensures
        code_read(
            tcoef_aic_code(bits::stream(*old(r)), bits::bits_read(*old(r)) as int),
            103,
            res,
            *old(r),
            *final(r),
        ),
{
    proof {
        reveal(tcoef_aic_code);
    }
    read_code(r, &TCOEF_AIC_LENGTHS, &TCOEF_AIC_CODES, 12)
}

} // verus!
