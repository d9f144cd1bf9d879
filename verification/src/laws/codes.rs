//! Laws of the variable-length codes and of the syntax elements made of them.

use crate::bits;
use crate::block_layer;
use crate::block_layer::Levels;
use crate::gob_header;
use crate::macroblock;
use crate::macroblock::{IntraMode, MbContext, MbType};
use crate::macroblock_layer;
use crate::pb_layer::{BpbCodingMode, ModbPresence};
use crate::picture::decode;
use crate::picture_header::H263PictureCodingType;
use crate::vlc;
use crate::vlc::Code;
use vstd::prelude::*;

verus! {

/// The share that a code of `n` bits has of all strings of thirteen.
pub open spec fn share(n: int) -> int {
    if n == 1 {
        4096
    } else if n == 2 {
        2048
    } else if n == 3 {
        1024
    } else if n == 4 {
        512
    } else if n == 5 {
        256
    } else if n == 6 {
        128
    } else if n == 7 {
        64
    } else if n == 8 {
        32
    } else if n == 9 {
        16
    } else if n == 10 {
        8
    } else if n == 11 {
        4
    } else if n == 12 {
        2
    } else {
        1
    }
}

/// The first string of thirteen bits that begins with `code` in `n` bits.
pub open spec fn filled_up(code: int, n: int) -> int {
    if n == 1 {
        4096 * code
    } else if n == 2 {
        2048 * code
    } else if n == 3 {
        1024 * code
    } else if n == 4 {
        512 * code
    } else if n == 5 {
        256 * code
    } else if n == 6 {
        128 * code
    } else if n == 7 {
        64 * code
    } else if n == 8 {
        32 * code
    } else if n == 9 {
        16 * code
    } else if n == 10 {
        8 * code
    } else if n == 11 {
        4 * code
    } else if n == 12 {
        2 * code
    } else {
        code
    }
}

/// The first string of thirteen bits that begins with the code of an entry.
pub open spec fn first(codes: Seq<u16>, lengths: Seq<u8>, i: int) -> int {
    filled_up(codes[i] as int, lengths[i] as int)
}

/// The strings of a code begin right where those of the next one end.
pub open spec fn follows(codes: Seq<u16>, lengths: Seq<u8>, i: int, next: int) -> bool {
    first(codes, lengths, i) == first(codes, lengths, next) + share(lengths[next] as int)
}

/// The code begins with the string of ones.
pub open spec fn uppermost(codes: Seq<u16>, lengths: Seq<u8>, i: int) -> bool {
    first(codes, lengths, i) + share(lengths[i] as int) == 8192
}

/// Codes of vector differences fall as the difference grows, each right below the
/// one before, and never get shorter: no difference is a single 1.
#[verifier::spinoff_prover]
#[verifier::rlimit(40)]
pub proof fn small_differences_have_short_codes(m: int)
    requires
        0 <= m < 32,
    ensures
        vlc::MVD_LENGTHS@[0] == 1,
        vlc::MVD_CODES@[0] == 1,
        vlc::MVD_LENGTHS@[32] == 12,
        vlc::MVD_LENGTHS@[m] <= vlc::MVD_LENGTHS@[m + 1] <= vlc::MVD_LENGTHS@[m] + 2,
        follows(vlc::MVD_CODES@, vlc::MVD_LENGTHS@, m, m + 1),
{
    assert(vlc::MVD_LENGTHS@[0] == 1 && vlc::MVD_CODES@[0] == 1);
    assert(vlc::MVD_LENGTHS@[1] == 2 && vlc::MVD_CODES@[1] == 1);
    assert(vlc::MVD_LENGTHS@[2] == 3 && vlc::MVD_CODES@[2] == 1);
    assert(vlc::MVD_LENGTHS@[3] == 4 && vlc::MVD_CODES@[3] == 1);
    assert(vlc::MVD_LENGTHS@[4] == 6 && vlc::MVD_CODES@[4] == 3);
    assert(vlc::MVD_LENGTHS@[5] == 7 && vlc::MVD_CODES@[5] == 5);
    assert(vlc::MVD_LENGTHS@[6] == 7 && vlc::MVD_CODES@[6] == 4);
    assert(vlc::MVD_LENGTHS@[7] == 7 && vlc::MVD_CODES@[7] == 3);
    assert(vlc::MVD_LENGTHS@[8] == 9 && vlc::MVD_CODES@[8] == 11);
    assert(vlc::MVD_LENGTHS@[9] == 9 && vlc::MVD_CODES@[9] == 10);
    assert(vlc::MVD_LENGTHS@[10] == 9 && vlc::MVD_CODES@[10] == 9);
    assert(vlc::MVD_LENGTHS@[11] == 10 && vlc::MVD_CODES@[11] == 17);
    assert(vlc::MVD_LENGTHS@[12] == 10 && vlc::MVD_CODES@[12] == 16);
    assert(vlc::MVD_LENGTHS@[13] == 10 && vlc::MVD_CODES@[13] == 15);
    assert(vlc::MVD_LENGTHS@[14] == 10 && vlc::MVD_CODES@[14] == 14);
    assert(vlc::MVD_LENGTHS@[15] == 10 && vlc::MVD_CODES@[15] == 13);
    assert(vlc::MVD_LENGTHS@[16] == 10 && vlc::MVD_CODES@[16] == 12);
    assert(vlc::MVD_LENGTHS@[17] == 10 && vlc::MVD_CODES@[17] == 11);
    assert(vlc::MVD_LENGTHS@[18] == 10 && vlc::MVD_CODES@[18] == 10);
    assert(vlc::MVD_LENGTHS@[19] == 10 && vlc::MVD_CODES@[19] == 9);
    assert(vlc::MVD_LENGTHS@[20] == 10 && vlc::MVD_CODES@[20] == 8);
    assert(vlc::MVD_LENGTHS@[21] == 10 && vlc::MVD_CODES@[21] == 7);
    assert(vlc::MVD_LENGTHS@[22] == 10 && vlc::MVD_CODES@[22] == 6);
    assert(vlc::MVD_LENGTHS@[23] == 10 && vlc::MVD_CODES@[23] == 5);
    assert(vlc::MVD_LENGTHS@[24] == 10 && vlc::MVD_CODES@[24] == 4);
    assert(vlc::MVD_LENGTHS@[25] == 11 && vlc::MVD_CODES@[25] == 7);
    assert(vlc::MVD_LENGTHS@[26] == 11 && vlc::MVD_CODES@[26] == 6);
    assert(vlc::MVD_LENGTHS@[27] == 11 && vlc::MVD_CODES@[27] == 5);
    assert(vlc::MVD_LENGTHS@[28] == 11 && vlc::MVD_CODES@[28] == 4);
    assert(vlc::MVD_LENGTHS@[29] == 11 && vlc::MVD_CODES@[29] == 3);
    assert(vlc::MVD_LENGTHS@[30] == 11 && vlc::MVD_CODES@[30] == 2);
    assert(vlc::MVD_LENGTHS@[31] == 12 && vlc::MVD_CODES@[31] == 3);
    assert(vlc::MVD_LENGTHS@[32] == 12 && vlc::MVD_CODES@[32] == 2);
}

/// The entries of CBPY from the uppermost code to the lowest.
pub open spec fn cbpy_order() -> Seq<int> {
    seq![
        15int, 7, 11, 3, 13, 5, 14, 10, 12, 0, 1, 2, 4, 8, 9, 6,
    ]
}

/// The code lengths of CBPY in that order.
pub open spec fn cbpy_lengths_in_order() -> Seq<int> {
    seq![
        2int, 4, 4, 4, 4, 4, 4, 4, 4, 4, 5, 5, 5, 5, 6, 6,
    ]
}

/// Codes of luma patterns fill the strings from the top without gaps: the most
/// common pattern of a predicted macroblock, none, is the shortest.
#[verifier::spinoff_prover]
#[verifier::rlimit(100)]
pub proof fn luma_patterns_fill_the_codes(k: int)
    requires
        0 <= k < 16,
    ensures
        uppermost(vlc::CBPY_CODES@, vlc::CBPY_LENGTHS@, 15),
        0 <= cbpy_order()[k] < 16,
        vlc::CBPY_LENGTHS@[cbpy_order()[k]] == cbpy_lengths_in_order()[k],
        k + 1 < 16 ==> follows(
            vlc::CBPY_CODES@,
            vlc::CBPY_LENGTHS@,
            cbpy_order()[k],
            cbpy_order()[k + 1],
        ),
{
    assert(cbpy_order()[0] == 15 && vlc::CBPY_LENGTHS@[15] == 2 && vlc::CBPY_CODES@[15] == 3);
    assert(cbpy_order()[1] == 7 && vlc::CBPY_LENGTHS@[7] == 4 && vlc::CBPY_CODES@[7] == 11);
    assert(cbpy_order()[2] == 11 && vlc::CBPY_LENGTHS@[11] == 4 && vlc::CBPY_CODES@[11] == 10);
    assert(cbpy_order()[3] == 3 && vlc::CBPY_LENGTHS@[3] == 4 && vlc::CBPY_CODES@[3] == 9);
    assert(cbpy_order()[4] == 13 && vlc::CBPY_LENGTHS@[13] == 4 && vlc::CBPY_CODES@[13] == 8);
    assert(cbpy_order()[5] == 5 && vlc::CBPY_LENGTHS@[5] == 4 && vlc::CBPY_CODES@[5] == 7);
    assert(cbpy_order()[6] == 14 && vlc::CBPY_LENGTHS@[14] == 4 && vlc::CBPY_CODES@[14] == 6);
    assert(cbpy_order()[7] == 10 && vlc::CBPY_LENGTHS@[10] == 4 && vlc::CBPY_CODES@[10] == 5);
    assert(cbpy_order()[8] == 12 && vlc::CBPY_LENGTHS@[12] == 4 && vlc::CBPY_CODES@[12] == 4);
    assert(cbpy_order()[9] == 0 && vlc::CBPY_LENGTHS@[0] == 4 && vlc::CBPY_CODES@[0] == 3);
    assert(cbpy_order()[10] == 1 && vlc::CBPY_LENGTHS@[1] == 5 && vlc::CBPY_CODES@[1] == 5);
    assert(cbpy_order()[11] == 2 && vlc::CBPY_LENGTHS@[2] == 5 && vlc::CBPY_CODES@[2] == 4);
    assert(cbpy_order()[12] == 4 && vlc::CBPY_LENGTHS@[4] == 5 && vlc::CBPY_CODES@[4] == 3);
    assert(cbpy_order()[13] == 8 && vlc::CBPY_LENGTHS@[8] == 5 && vlc::CBPY_CODES@[8] == 2);
    assert(cbpy_order()[14] == 9 && vlc::CBPY_LENGTHS@[9] == 6 && vlc::CBPY_CODES@[9] == 3);
    assert(cbpy_order()[15] == 6 && vlc::CBPY_LENGTHS@[6] == 6 && vlc::CBPY_CODES@[6] == 2);
}

/// The entries of MCBPC in an INTRA picture from the uppermost code to the lowest.
pub open spec fn mcbpc_intra_order() -> Seq<int> {
    seq![
        0int, 3, 2, 1, 4, 7, 6, 5, 8,
    ]
}

/// The code lengths of MCBPC in an INTRA picture in that order.
pub open spec fn mcbpc_intra_lengths_in_order() -> Seq<int> {
    seq![
        1int, 3, 3, 3, 4, 6, 6, 6, 9,
    ]
}

/// Codes of macroblock types and chroma patterns in an INTRA picture fill the
/// strings from the top, with a gap only above stuffing.
#[verifier::spinoff_prover]
#[verifier::rlimit(100)]
pub proof fn intra_types_fill_the_codes(k: int)
    requires
        0 <= k < 9,
    ensures
        uppermost(vlc::MCBPC_INTRA_CODES@, vlc::MCBPC_INTRA_LENGTHS@, 0),
        0 <= mcbpc_intra_order()[k] < 9,
        vlc::MCBPC_INTRA_LENGTHS@[mcbpc_intra_order()[k]] == mcbpc_intra_lengths_in_order()[k],
        k + 1 < 9 && k != 7 ==> follows(
            vlc::MCBPC_INTRA_CODES@,
            vlc::MCBPC_INTRA_LENGTHS@,
            mcbpc_intra_order()[k],
            mcbpc_intra_order()[k + 1],
        ),
{
    assert(mcbpc_intra_order()[0] == 0 && vlc::MCBPC_INTRA_LENGTHS@[0] == 1 && vlc::MCBPC_INTRA_CODES@[0] == 1);
    assert(mcbpc_intra_order()[1] == 3 && vlc::MCBPC_INTRA_LENGTHS@[3] == 3 && vlc::MCBPC_INTRA_CODES@[3] == 3);
    assert(mcbpc_intra_order()[2] == 2 && vlc::MCBPC_INTRA_LENGTHS@[2] == 3 && vlc::MCBPC_INTRA_CODES@[2] == 2);
    assert(mcbpc_intra_order()[3] == 1 && vlc::MCBPC_INTRA_LENGTHS@[1] == 3 && vlc::MCBPC_INTRA_CODES@[1] == 1);
    assert(mcbpc_intra_order()[4] == 4 && vlc::MCBPC_INTRA_LENGTHS@[4] == 4 && vlc::MCBPC_INTRA_CODES@[4] == 1);
    assert(mcbpc_intra_order()[5] == 7 && vlc::MCBPC_INTRA_LENGTHS@[7] == 6 && vlc::MCBPC_INTRA_CODES@[7] == 3);
    assert(mcbpc_intra_order()[6] == 6 && vlc::MCBPC_INTRA_LENGTHS@[6] == 6 && vlc::MCBPC_INTRA_CODES@[6] == 2);
    assert(mcbpc_intra_order()[7] == 5 && vlc::MCBPC_INTRA_LENGTHS@[5] == 6 && vlc::MCBPC_INTRA_CODES@[5] == 1);
    assert(mcbpc_intra_order()[8] == 8 && vlc::MCBPC_INTRA_LENGTHS@[8] == 9 && vlc::MCBPC_INTRA_CODES@[8] == 1);
}

/// The entries of MCBPC in an INTER picture from the uppermost code to the lowest.
pub open spec fn mcbpc_inter_order() -> Seq<int> {
    seq![
        0int, 8, 16, 1, 2, 4, 3, 12, 9, 10, 17, 18, 7, 19, 5, 6, 11, 13, 14, 15, 20, 24, 23,
        22, 21,
    ]
}

/// The code lengths of MCBPC in an INTER picture in that order.
pub open spec fn mcbpc_inter_lengths_in_order() -> Seq<int> {
    seq![
        1int, 3, 3, 4, 4, 5, 6, 6, 7, 7, 7, 7, 7, 8, 8, 8, 9, 9, 9, 9, 9, 13, 13, 13, 11,
    ]
}

/// Codes of macroblock types and chroma patterns in an INTER picture fill the
/// strings from the top, with a gap only among the four types that are rarest.
#[verifier::spinoff_prover]
#[verifier::rlimit(100)]
pub proof fn inter_types_fill_the_codes(k: int)
    requires
        0 <= k < 25,
    ensures
        uppermost(vlc::MCBPC_INTER_CODES@, vlc::MCBPC_INTER_LENGTHS@, 0),
        0 <= mcbpc_inter_order()[k] < 25,
        vlc::MCBPC_INTER_LENGTHS@[mcbpc_inter_order()[k]] == mcbpc_inter_lengths_in_order()[k],
        k + 1 < 25 && k != 22 ==> follows(
            vlc::MCBPC_INTER_CODES@,
            vlc::MCBPC_INTER_LENGTHS@,
            mcbpc_inter_order()[k],
            mcbpc_inter_order()[k + 1],
        ),
{
    assert(mcbpc_inter_order()[0] == 0 && vlc::MCBPC_INTER_LENGTHS@[0] == 1 && vlc::MCBPC_INTER_CODES@[0] == 1);
    assert(mcbpc_inter_order()[1] == 8 && vlc::MCBPC_INTER_LENGTHS@[8] == 3 && vlc::MCBPC_INTER_CODES@[8] == 3);
    assert(mcbpc_inter_order()[2] == 16 && vlc::MCBPC_INTER_LENGTHS@[16] == 3 && vlc::MCBPC_INTER_CODES@[16] == 2);
    assert(mcbpc_inter_order()[3] == 1 && vlc::MCBPC_INTER_LENGTHS@[1] == 4 && vlc::MCBPC_INTER_CODES@[1] == 3);
    assert(mcbpc_inter_order()[4] == 2 && vlc::MCBPC_INTER_LENGTHS@[2] == 4 && vlc::MCBPC_INTER_CODES@[2] == 2);
    assert(mcbpc_inter_order()[5] == 4 && vlc::MCBPC_INTER_LENGTHS@[4] == 5 && vlc::MCBPC_INTER_CODES@[4] == 3);
    assert(mcbpc_inter_order()[6] == 3 && vlc::MCBPC_INTER_LENGTHS@[3] == 6 && vlc::MCBPC_INTER_CODES@[3] == 5);
    assert(mcbpc_inter_order()[7] == 12 && vlc::MCBPC_INTER_LENGTHS@[12] == 6 && vlc::MCBPC_INTER_CODES@[12] == 4);
    assert(mcbpc_inter_order()[8] == 9 && vlc::MCBPC_INTER_LENGTHS@[9] == 7 && vlc::MCBPC_INTER_CODES@[9] == 7);
    assert(mcbpc_inter_order()[9] == 10 && vlc::MCBPC_INTER_LENGTHS@[10] == 7 && vlc::MCBPC_INTER_CODES@[10] == 6);
    assert(mcbpc_inter_order()[10] == 17 && vlc::MCBPC_INTER_LENGTHS@[17] == 7 && vlc::MCBPC_INTER_CODES@[17] == 5);
    assert(mcbpc_inter_order()[11] == 18 && vlc::MCBPC_INTER_LENGTHS@[18] == 7 && vlc::MCBPC_INTER_CODES@[18] == 4);
    assert(mcbpc_inter_order()[12] == 7 && vlc::MCBPC_INTER_LENGTHS@[7] == 7 && vlc::MCBPC_INTER_CODES@[7] == 3);
    assert(mcbpc_inter_order()[13] == 19 && vlc::MCBPC_INTER_LENGTHS@[19] == 8 && vlc::MCBPC_INTER_CODES@[19] == 5);
    assert(mcbpc_inter_order()[14] == 5 && vlc::MCBPC_INTER_LENGTHS@[5] == 8 && vlc::MCBPC_INTER_CODES@[5] == 4);
    assert(mcbpc_inter_order()[15] == 6 && vlc::MCBPC_INTER_LENGTHS@[6] == 8 && vlc::MCBPC_INTER_CODES@[6] == 3);
    assert(mcbpc_inter_order()[16] == 11 && vlc::MCBPC_INTER_LENGTHS@[11] == 9 && vlc::MCBPC_INTER_CODES@[11] == 5);
    assert(mcbpc_inter_order()[17] == 13 && vlc::MCBPC_INTER_LENGTHS@[13] == 9 && vlc::MCBPC_INTER_CODES@[13] == 4);
    assert(mcbpc_inter_order()[18] == 14 && vlc::MCBPC_INTER_LENGTHS@[14] == 9 && vlc::MCBPC_INTER_CODES@[14] == 3);
    assert(mcbpc_inter_order()[19] == 15 && vlc::MCBPC_INTER_LENGTHS@[15] == 9 && vlc::MCBPC_INTER_CODES@[15] == 2);
    assert(mcbpc_inter_order()[20] == 20 && vlc::MCBPC_INTER_LENGTHS@[20] == 9 && vlc::MCBPC_INTER_CODES@[20] == 1);
    assert(mcbpc_inter_order()[21] == 24 && vlc::MCBPC_INTER_LENGTHS@[24] == 13 && vlc::MCBPC_INTER_CODES@[24] == 15);
    assert(mcbpc_inter_order()[22] == 23 && vlc::MCBPC_INTER_LENGTHS@[23] == 13 && vlc::MCBPC_INTER_CODES@[23] == 14);
    assert(mcbpc_inter_order()[23] == 22 && vlc::MCBPC_INTER_LENGTHS@[22] == 13 && vlc::MCBPC_INTER_CODES@[22] == 12);
    assert(mcbpc_inter_order()[24] == 21 && vlc::MCBPC_INTER_LENGTHS@[21] == 11 && vlc::MCBPC_INTER_CODES@[21] == 2);
}

/// The entries of coefficient events from the uppermost code to the lowest.
pub open spec fn tcoef_order() -> Seq<int> {
    seq![
        1int, 18, 12, 0, 58, 22, 25, 28, 2, 13, 31, 34, 36, 38, 61, 63, 64, 65, 3, 40, 42, 43,
        66, 67, 68, 69, 4, 14, 19, 44, 45, 70, 71, 72, 73, 74, 75, 76, 77, 5, 6, 23, 26, 46,
        47, 48, 49, 50, 51, 52, 53, 59, 78, 79, 80, 81, 82, 83, 84, 85, 7, 8, 102, 101, 100,
        99, 98, 97, 96, 95, 94, 57, 56, 41, 33, 30, 27, 21, 17, 93, 92, 91, 90, 55, 54, 16, 11,
        15, 20, 24, 29, 32, 35, 37, 39, 86, 87, 88, 89, 9, 10, 60, 62,
    ]
}

/// The code lengths of coefficient events in that order.
pub open spec fn tcoef_lengths_in_order() -> Seq<int> {
    seq![
        4int, 4, 3, 2, 4, 5, 5, 5, 6, 6, 6, 6, 6, 6, 6, 6, 6, 6, 7, 7, 7, 7, 7, 7, 7, 7, 8, 8,
        8, 8, 8, 8, 8, 8, 8, 8, 8, 8, 8, 9, 9, 9, 9, 9, 9, 9, 9, 9, 9, 9, 9, 9, 9, 9, 9, 9, 9,
        9, 9, 9, 10, 10, 7, 12, 12, 12, 12, 12, 12, 12, 12, 12, 12, 12, 12, 12, 12, 12, 12, 11,
        11, 11, 11, 11, 11, 11, 11, 10, 10, 10, 10, 10, 10, 10, 10, 10, 10, 10, 10, 11, 11, 11,
        11,
    ]
}

/// Codes of coefficient events fill the strings from the top without gaps; the
/// escape is among them.
#[verifier::spinoff_prover]
#[verifier::rlimit(100)]
pub proof fn events_fill_the_codes(k: int)
    requires
        0 <= k < 103,
    ensures
        uppermost(vlc::TCOEF_CODES@, vlc::TCOEF_LENGTHS@, 1),
        0 <= tcoef_order()[k] < 103,
        vlc::TCOEF_LENGTHS@[tcoef_order()[k]] == tcoef_lengths_in_order()[k],
        k + 1 < 103 ==> follows(
            vlc::TCOEF_CODES@,
            vlc::TCOEF_LENGTHS@,
            tcoef_order()[k],
            tcoef_order()[k + 1],
        ),
{
    assert(tcoef_order()[0] == 1 && vlc::TCOEF_LENGTHS@[1] == 4 && vlc::TCOEF_CODES@[1] == 15);
    assert(tcoef_order()[1] == 18 && vlc::TCOEF_LENGTHS@[18] == 4 && vlc::TCOEF_CODES@[18] == 14);
    assert(tcoef_order()[2] == 12 && vlc::TCOEF_LENGTHS@[12] == 3 && vlc::TCOEF_CODES@[12] == 6);
    assert(tcoef_order()[3] == 0 && vlc::TCOEF_LENGTHS@[0] == 2 && vlc::TCOEF_CODES@[0] == 2);
    assert(tcoef_order()[4] == 58 && vlc::TCOEF_LENGTHS@[58] == 4 && vlc::TCOEF_CODES@[58] == 7);
    assert(tcoef_order()[5] == 22 && vlc::TCOEF_LENGTHS@[22] == 5 && vlc::TCOEF_CODES@[22] == 13);
    assert(tcoef_order()[6] == 25 && vlc::TCOEF_LENGTHS@[25] == 5 && vlc::TCOEF_CODES@[25] == 12);
    assert(tcoef_order()[7] == 28 && vlc::TCOEF_LENGTHS@[28] == 5 && vlc::TCOEF_CODES@[28] == 11);
    assert(tcoef_order()[8] == 2 && vlc::TCOEF_LENGTHS@[2] == 6 && vlc::TCOEF_CODES@[2] == 21);
    assert(tcoef_order()[9] == 13 && vlc::TCOEF_LENGTHS@[13] == 6 && vlc::TCOEF_CODES@[13] == 20);
    assert(tcoef_order()[10] == 31 && vlc::TCOEF_LENGTHS@[31] == 6 && vlc::TCOEF_CODES@[31] == 19);
    assert(tcoef_order()[11] == 34 && vlc::TCOEF_LENGTHS@[34] == 6 && vlc::TCOEF_CODES@[34] == 18);
    assert(tcoef_order()[12] == 36 && vlc::TCOEF_LENGTHS@[36] == 6 && vlc::TCOEF_CODES@[36] == 17);
    assert(tcoef_order()[13] == 38 && vlc::TCOEF_LENGTHS@[38] == 6 && vlc::TCOEF_CODES@[38] == 16);
    assert(tcoef_order()[14] == 61 && vlc::TCOEF_LENGTHS@[61] == 6 && vlc::TCOEF_CODES@[61] == 15);
    assert(tcoef_order()[15] == 63 && vlc::TCOEF_LENGTHS@[63] == 6 && vlc::TCOEF_CODES@[63] == 14);
    assert(tcoef_order()[16] == 64 && vlc::TCOEF_LENGTHS@[64] == 6 && vlc::TCOEF_CODES@[64] == 13);
    assert(tcoef_order()[17] == 65 && vlc::TCOEF_LENGTHS@[65] == 6 && vlc::TCOEF_CODES@[65] == 12);
    assert(tcoef_order()[18] == 3 && vlc::TCOEF_LENGTHS@[3] == 7 && vlc::TCOEF_CODES@[3] == 23);
    assert(tcoef_order()[19] == 40 && vlc::TCOEF_LENGTHS@[40] == 7 && vlc::TCOEF_CODES@[40] == 22);
    assert(tcoef_order()[20] == 42 && vlc::TCOEF_LENGTHS@[42] == 7 && vlc::TCOEF_CODES@[42] == 21);
    assert(tcoef_order()[21] == 43 && vlc::TCOEF_LENGTHS@[43] == 7 && vlc::TCOEF_CODES@[43] == 20);
    assert(tcoef_order()[22] == 66 && vlc::TCOEF_LENGTHS@[66] == 7 && vlc::TCOEF_CODES@[66] == 19);
    assert(tcoef_order()[23] == 67 && vlc::TCOEF_LENGTHS@[67] == 7 && vlc::TCOEF_CODES@[67] == 18);
    assert(tcoef_order()[24] == 68 && vlc::TCOEF_LENGTHS@[68] == 7 && vlc::TCOEF_CODES@[68] == 17);
    assert(tcoef_order()[25] == 69 && vlc::TCOEF_LENGTHS@[69] == 7 && vlc::TCOEF_CODES@[69] == 16);
    assert(tcoef_order()[26] == 4 && vlc::TCOEF_LENGTHS@[4] == 8 && vlc::TCOEF_CODES@[4] == 31);
    assert(tcoef_order()[27] == 14 && vlc::TCOEF_LENGTHS@[14] == 8 && vlc::TCOEF_CODES@[14] == 30);
    assert(tcoef_order()[28] == 19 && vlc::TCOEF_LENGTHS@[19] == 8 && vlc::TCOEF_CODES@[19] == 29);
    assert(tcoef_order()[29] == 44 && vlc::TCOEF_LENGTHS@[44] == 8 && vlc::TCOEF_CODES@[44] == 28);
    assert(tcoef_order()[30] == 45 && vlc::TCOEF_LENGTHS@[45] == 8 && vlc::TCOEF_CODES@[45] == 27);
    assert(tcoef_order()[31] == 70 && vlc::TCOEF_LENGTHS@[70] == 8 && vlc::TCOEF_CODES@[70] == 26);
    assert(tcoef_order()[32] == 71 && vlc::TCOEF_LENGTHS@[71] == 8 && vlc::TCOEF_CODES@[71] == 25);
    assert(tcoef_order()[33] == 72 && vlc::TCOEF_LENGTHS@[72] == 8 && vlc::TCOEF_CODES@[72] == 24);
    assert(tcoef_order()[34] == 73 && vlc::TCOEF_LENGTHS@[73] == 8 && vlc::TCOEF_CODES@[73] == 23);
    assert(tcoef_order()[35] == 74 && vlc::TCOEF_LENGTHS@[74] == 8 && vlc::TCOEF_CODES@[74] == 22);
    assert(tcoef_order()[36] == 75 && vlc::TCOEF_LENGTHS@[75] == 8 && vlc::TCOEF_CODES@[75] == 21);
    assert(tcoef_order()[37] == 76 && vlc::TCOEF_LENGTHS@[76] == 8 && vlc::TCOEF_CODES@[76] == 20);
    assert(tcoef_order()[38] == 77 && vlc::TCOEF_LENGTHS@[77] == 8 && vlc::TCOEF_CODES@[77] == 19);
    assert(tcoef_order()[39] == 5 && vlc::TCOEF_LENGTHS@[5] == 9 && vlc::TCOEF_CODES@[5] == 37);
    assert(tcoef_order()[40] == 6 && vlc::TCOEF_LENGTHS@[6] == 9 && vlc::TCOEF_CODES@[6] == 36);
    assert(tcoef_order()[41] == 23 && vlc::TCOEF_LENGTHS@[23] == 9 && vlc::TCOEF_CODES@[23] == 35);
    assert(tcoef_order()[42] == 26 && vlc::TCOEF_LENGTHS@[26] == 9 && vlc::TCOEF_CODES@[26] == 34);
    assert(tcoef_order()[43] == 46 && vlc::TCOEF_LENGTHS@[46] == 9 && vlc::TCOEF_CODES@[46] == 33);
    assert(tcoef_order()[44] == 47 && vlc::TCOEF_LENGTHS@[47] == 9 && vlc::TCOEF_CODES@[47] == 32);
    assert(tcoef_order()[45] == 48 && vlc::TCOEF_LENGTHS@[48] == 9 && vlc::TCOEF_CODES@[48] == 31);
    assert(tcoef_order()[46] == 49 && vlc::TCOEF_LENGTHS@[49] == 9 && vlc::TCOEF_CODES@[49] == 30);
    assert(tcoef_order()[47] == 50 && vlc::TCOEF_LENGTHS@[50] == 9 && vlc::TCOEF_CODES@[50] == 29);
    assert(tcoef_order()[48] == 51 && vlc::TCOEF_LENGTHS@[51] == 9 && vlc::TCOEF_CODES@[51] == 28);
    assert(tcoef_order()[49] == 52 && vlc::TCOEF_LENGTHS@[52] == 9 && vlc::TCOEF_CODES@[52] == 27);
    assert(tcoef_order()[50] == 53 && vlc::TCOEF_LENGTHS@[53] == 9 && vlc::TCOEF_CODES@[53] == 26);
    assert(tcoef_order()[51] == 59 && vlc::TCOEF_LENGTHS@[59] == 9 && vlc::TCOEF_CODES@[59] == 25);
    assert(tcoef_order()[52] == 78 && vlc::TCOEF_LENGTHS@[78] == 9 && vlc::TCOEF_CODES@[78] == 24);
    assert(tcoef_order()[53] == 79 && vlc::TCOEF_LENGTHS@[79] == 9 && vlc::TCOEF_CODES@[79] == 23);
    assert(tcoef_order()[54] == 80 && vlc::TCOEF_LENGTHS@[80] == 9 && vlc::TCOEF_CODES@[80] == 22);
    assert(tcoef_order()[55] == 81 && vlc::TCOEF_LENGTHS@[81] == 9 && vlc::TCOEF_CODES@[81] == 21);
    assert(tcoef_order()[56] == 82 && vlc::TCOEF_LENGTHS@[82] == 9 && vlc::TCOEF_CODES@[82] == 20);
    assert(tcoef_order()[57] == 83 && vlc::TCOEF_LENGTHS@[83] == 9 && vlc::TCOEF_CODES@[83] == 19);
    assert(tcoef_order()[58] == 84 && vlc::TCOEF_LENGTHS@[84] == 9 && vlc::TCOEF_CODES@[84] == 18);
    assert(tcoef_order()[59] == 85 && vlc::TCOEF_LENGTHS@[85] == 9 && vlc::TCOEF_CODES@[85] == 17);
    assert(tcoef_order()[60] == 7 && vlc::TCOEF_LENGTHS@[7] == 10 && vlc::TCOEF_CODES@[7] == 33);
    assert(tcoef_order()[61] == 8 && vlc::TCOEF_LENGTHS@[8] == 10 && vlc::TCOEF_CODES@[8] == 32);
    assert(tcoef_order()[62] == 102 && vlc::TCOEF_LENGTHS@[102] == 7 && vlc::TCOEF_CODES@[102] == 3);
    assert(tcoef_order()[63] == 101 && vlc::TCOEF_LENGTHS@[101] == 12 && vlc::TCOEF_CODES@[101] == 95);
    assert(tcoef_order()[64] == 100 && vlc::TCOEF_LENGTHS@[100] == 12 && vlc::TCOEF_CODES@[100] == 94);
    assert(tcoef_order()[65] == 99 && vlc::TCOEF_LENGTHS@[99] == 12 && vlc::TCOEF_CODES@[99] == 93);
    assert(tcoef_order()[66] == 98 && vlc::TCOEF_LENGTHS@[98] == 12 && vlc::TCOEF_CODES@[98] == 92);
    assert(tcoef_order()[67] == 97 && vlc::TCOEF_LENGTHS@[97] == 12 && vlc::TCOEF_CODES@[97] == 91);
    assert(tcoef_order()[68] == 96 && vlc::TCOEF_LENGTHS@[96] == 12 && vlc::TCOEF_CODES@[96] == 90);
    assert(tcoef_order()[69] == 95 && vlc::TCOEF_LENGTHS@[95] == 12 && vlc::TCOEF_CODES@[95] == 89);
    assert(tcoef_order()[70] == 94 && vlc::TCOEF_LENGTHS@[94] == 12 && vlc::TCOEF_CODES@[94] == 88);
    assert(tcoef_order()[71] == 57 && vlc::TCOEF_LENGTHS@[57] == 12 && vlc::TCOEF_CODES@[57] == 87);
    assert(tcoef_order()[72] == 56 && vlc::TCOEF_LENGTHS@[56] == 12 && vlc::TCOEF_CODES@[56] == 86);
    assert(tcoef_order()[73] == 41 && vlc::TCOEF_LENGTHS@[41] == 12 && vlc::TCOEF_CODES@[41] == 85);
    assert(tcoef_order()[74] == 33 && vlc::TCOEF_LENGTHS@[33] == 12 && vlc::TCOEF_CODES@[33] == 84);
    assert(tcoef_order()[75] == 30 && vlc::TCOEF_LENGTHS@[30] == 12 && vlc::TCOEF_CODES@[30] == 83);
    assert(tcoef_order()[76] == 27 && vlc::TCOEF_LENGTHS@[27] == 12 && vlc::TCOEF_CODES@[27] == 82);
    assert(tcoef_order()[77] == 21 && vlc::TCOEF_LENGTHS@[21] == 12 && vlc::TCOEF_CODES@[21] == 81);
    assert(tcoef_order()[78] == 17 && vlc::TCOEF_LENGTHS@[17] == 12 && vlc::TCOEF_CODES@[17] == 80);
    assert(tcoef_order()[79] == 93 && vlc::TCOEF_LENGTHS@[93] == 11 && vlc::TCOEF_CODES@[93] == 39);
    assert(tcoef_order()[80] == 92 && vlc::TCOEF_LENGTHS@[92] == 11 && vlc::TCOEF_CODES@[92] == 38);
    assert(tcoef_order()[81] == 91 && vlc::TCOEF_LENGTHS@[91] == 11 && vlc::TCOEF_CODES@[91] == 37);
    assert(tcoef_order()[82] == 90 && vlc::TCOEF_LENGTHS@[90] == 11 && vlc::TCOEF_CODES@[90] == 36);
    assert(tcoef_order()[83] == 55 && vlc::TCOEF_LENGTHS@[55] == 11 && vlc::TCOEF_CODES@[55] == 35);
    assert(tcoef_order()[84] == 54 && vlc::TCOEF_LENGTHS@[54] == 11 && vlc::TCOEF_CODES@[54] == 34);
    assert(tcoef_order()[85] == 16 && vlc::TCOEF_LENGTHS@[16] == 11 && vlc::TCOEF_CODES@[16] == 33);
    assert(tcoef_order()[86] == 11 && vlc::TCOEF_LENGTHS@[11] == 11 && vlc::TCOEF_CODES@[11] == 32);
    assert(tcoef_order()[87] == 15 && vlc::TCOEF_LENGTHS@[15] == 10 && vlc::TCOEF_CODES@[15] == 15);
    assert(tcoef_order()[88] == 20 && vlc::TCOEF_LENGTHS@[20] == 10 && vlc::TCOEF_CODES@[20] == 14);
    assert(tcoef_order()[89] == 24 && vlc::TCOEF_LENGTHS@[24] == 10 && vlc::TCOEF_CODES@[24] == 13);
    assert(tcoef_order()[90] == 29 && vlc::TCOEF_LENGTHS@[29] == 10 && vlc::TCOEF_CODES@[29] == 12);
    assert(tcoef_order()[91] == 32 && vlc::TCOEF_LENGTHS@[32] == 10 && vlc::TCOEF_CODES@[32] == 11);
    assert(tcoef_order()[92] == 35 && vlc::TCOEF_LENGTHS@[35] == 10 && vlc::TCOEF_CODES@[35] == 10);
    assert(tcoef_order()[93] == 37 && vlc::TCOEF_LENGTHS@[37] == 10 && vlc::TCOEF_CODES@[37] == 9);
    assert(tcoef_order()[94] == 39 && vlc::TCOEF_LENGTHS@[39] == 10 && vlc::TCOEF_CODES@[39] == 8);
    assert(tcoef_order()[95] == 86 && vlc::TCOEF_LENGTHS@[86] == 10 && vlc::TCOEF_CODES@[86] == 7);
    assert(tcoef_order()[96] == 87 && vlc::TCOEF_LENGTHS@[87] == 10 && vlc::TCOEF_CODES@[87] == 6);
    assert(tcoef_order()[97] == 88 && vlc::TCOEF_LENGTHS@[88] == 10 && vlc::TCOEF_CODES@[88] == 5);
    assert(tcoef_order()[98] == 89 && vlc::TCOEF_LENGTHS@[89] == 10 && vlc::TCOEF_CODES@[89] == 4);
    assert(tcoef_order()[99] == 9 && vlc::TCOEF_LENGTHS@[9] == 11 && vlc::TCOEF_CODES@[9] == 7);
    assert(tcoef_order()[100] == 10 && vlc::TCOEF_LENGTHS@[10] == 11 && vlc::TCOEF_CODES@[10] == 6);
    assert(tcoef_order()[101] == 60 && vlc::TCOEF_LENGTHS@[60] == 11 && vlc::TCOEF_CODES@[60] == 5);
    assert(tcoef_order()[102] == 62 && vlc::TCOEF_LENGTHS@[62] == 11 && vlc::TCOEF_CODES@[62] == 4);
}

/// The entries of the events of Advanced INTRA Coding from the uppermost code to the lowest.
pub open spec fn tcoef_aic_order() -> Seq<int> {
    seq![
        25int, 2, 1, 0, 58, 4, 3, 32, 36, 26, 40, 7, 6, 5, 68, 72, 75, 59, 43, 8, 33, 27, 80,
        82, 78, 60, 48, 28, 37, 46, 9, 87, 88, 89, 90, 91, 86, 84, 61, 50, 52, 41, 44, 11, 10,
        17, 16, 15, 14, 13, 12, 92, 95, 96, 94, 93, 73, 69, 63, 62, 54, 55, 102, 67, 77, 81,
        83, 85, 101, 100, 99, 20, 21, 22, 23, 24, 45, 39, 31, 65, 66, 71, 74, 18, 19, 30, 57,
        29, 34, 38, 47, 49, 51, 35, 56, 79, 76, 70, 64, 42, 53, 98, 97,
    ]
}

/// The code lengths of the events of Advanced INTRA Coding in that order.
pub open spec fn tcoef_aic_lengths_in_order() -> Seq<int> {
    seq![
        4int, 4, 3, 2, 4, 5, 5, 5, 6, 6, 6, 6, 6, 6, 6, 6, 6, 6, 7, 7, 7, 7, 7, 7, 7, 7, 8, 8,
        8, 8, 8, 8, 8, 8, 8, 8, 8, 8, 8, 9, 9, 9, 9, 9, 9, 9, 9, 9, 9, 9, 9, 9, 9, 9, 9, 9, 9,
        9, 9, 9, 10, 10, 7, 12, 12, 12, 12, 12, 12, 12, 12, 12, 12, 12, 12, 12, 12, 12, 12, 11,
        11, 11, 11, 11, 11, 11, 11, 10, 10, 10, 10, 10, 10, 10, 10, 10, 10, 10, 10, 11, 11, 11,
        11,
    ]
}

/// Codes of the coefficient events of Advanced INTRA Coding fill the strings from
/// the top without gaps; the escape is the same.
#[verifier::spinoff_prover]
#[verifier::rlimit(100)]
pub proof fn advanced_events_fill_the_codes(k: int)
    requires
        0 <= k < 103,
    ensures
        uppermost(vlc::TCOEF_AIC_CODES@, vlc::TCOEF_AIC_LENGTHS@, 25),
        0 <= tcoef_aic_order()[k] < 103,
        vlc::TCOEF_AIC_LENGTHS@[tcoef_aic_order()[k]] == tcoef_aic_lengths_in_order()[k],
        k + 1 < 103 ==> follows(
            vlc::TCOEF_AIC_CODES@,
            vlc::TCOEF_AIC_LENGTHS@,
            tcoef_aic_order()[k],
            tcoef_aic_order()[k + 1],
        ),
{
    assert(tcoef_aic_order()[0] == 25 && vlc::TCOEF_AIC_LENGTHS@[25] == 4 && vlc::TCOEF_AIC_CODES@[25] == 15);
    assert(tcoef_aic_order()[1] == 2 && vlc::TCOEF_AIC_LENGTHS@[2] == 4 && vlc::TCOEF_AIC_CODES@[2] == 14);
    assert(tcoef_aic_order()[2] == 1 && vlc::TCOEF_AIC_LENGTHS@[1] == 3 && vlc::TCOEF_AIC_CODES@[1] == 6);
    assert(tcoef_aic_order()[3] == 0 && vlc::TCOEF_AIC_LENGTHS@[0] == 2 && vlc::TCOEF_AIC_CODES@[0] == 2);
    assert(tcoef_aic_order()[4] == 58 && vlc::TCOEF_AIC_LENGTHS@[58] == 4 && vlc::TCOEF_AIC_CODES@[58] == 7);
    assert(tcoef_aic_order()[5] == 4 && vlc::TCOEF_AIC_LENGTHS@[4] == 5 && vlc::TCOEF_AIC_CODES@[4] == 13);
    assert(tcoef_aic_order()[6] == 3 && vlc::TCOEF_AIC_LENGTHS@[3] == 5 && vlc::TCOEF_AIC_CODES@[3] == 12);
    assert(tcoef_aic_order()[7] == 32 && vlc::TCOEF_AIC_LENGTHS@[32] == 5 && vlc::TCOEF_AIC_CODES@[32] == 11);
    assert(tcoef_aic_order()[8] == 36 && vlc::TCOEF_AIC_LENGTHS@[36] == 6 && vlc::TCOEF_AIC_CODES@[36] == 21);
    assert(tcoef_aic_order()[9] == 26 && vlc::TCOEF_AIC_LENGTHS@[26] == 6 && vlc::TCOEF_AIC_CODES@[26] == 20);
    assert(tcoef_aic_order()[10] == 40 && vlc::TCOEF_AIC_LENGTHS@[40] == 6 && vlc::TCOEF_AIC_CODES@[40] == 19);
    assert(tcoef_aic_order()[11] == 7 && vlc::TCOEF_AIC_LENGTHS@[7] == 6 && vlc::TCOEF_AIC_CODES@[7] == 18);
    assert(tcoef_aic_order()[12] == 6 && vlc::TCOEF_AIC_LENGTHS@[6] == 6 && vlc::TCOEF_AIC_CODES@[6] == 17);
    assert(tcoef_aic_order()[13] == 5 && vlc::TCOEF_AIC_LENGTHS@[5] == 6 && vlc::TCOEF_AIC_CODES@[5] == 16);
    assert(tcoef_aic_order()[14] == 68 && vlc::TCOEF_AIC_LENGTHS@[68] == 6 && vlc::TCOEF_AIC_CODES@[68] == 15);
    assert(tcoef_aic_order()[15] == 72 && vlc::TCOEF_AIC_LENGTHS@[72] == 6 && vlc::TCOEF_AIC_CODES@[72] == 14);
    assert(tcoef_aic_order()[16] == 75 && vlc::TCOEF_AIC_LENGTHS@[75] == 6 && vlc::TCOEF_AIC_CODES@[75] == 13);
    assert(tcoef_aic_order()[17] == 59 && vlc::TCOEF_AIC_LENGTHS@[59] == 6 && vlc::TCOEF_AIC_CODES@[59] == 12);
    assert(tcoef_aic_order()[18] == 43 && vlc::TCOEF_AIC_LENGTHS@[43] == 7 && vlc::TCOEF_AIC_CODES@[43] == 23);
    assert(tcoef_aic_order()[19] == 8 && vlc::TCOEF_AIC_LENGTHS@[8] == 7 && vlc::TCOEF_AIC_CODES@[8] == 22);
    assert(tcoef_aic_order()[20] == 33 && vlc::TCOEF_AIC_LENGTHS@[33] == 7 && vlc::TCOEF_AIC_CODES@[33] == 21);
    assert(tcoef_aic_order()[21] == 27 && vlc::TCOEF_AIC_LENGTHS@[27] == 7 && vlc::TCOEF_AIC_CODES@[27] == 20);
    assert(tcoef_aic_order()[22] == 80 && vlc::TCOEF_AIC_LENGTHS@[80] == 7 && vlc::TCOEF_AIC_CODES@[80] == 19);
    assert(tcoef_aic_order()[23] == 82 && vlc::TCOEF_AIC_LENGTHS@[82] == 7 && vlc::TCOEF_AIC_CODES@[82] == 18);
    assert(tcoef_aic_order()[24] == 78 && vlc::TCOEF_AIC_LENGTHS@[78] == 7 && vlc::TCOEF_AIC_CODES@[78] == 17);
    assert(tcoef_aic_order()[25] == 60 && vlc::TCOEF_AIC_LENGTHS@[60] == 7 && vlc::TCOEF_AIC_CODES@[60] == 16);
    assert(tcoef_aic_order()[26] == 48 && vlc::TCOEF_AIC_LENGTHS@[48] == 8 && vlc::TCOEF_AIC_CODES@[48] == 31);
    assert(tcoef_aic_order()[27] == 28 && vlc::TCOEF_AIC_LENGTHS@[28] == 8 && vlc::TCOEF_AIC_CODES@[28] == 30);
    assert(tcoef_aic_order()[28] == 37 && vlc::TCOEF_AIC_LENGTHS@[37] == 8 && vlc::TCOEF_AIC_CODES@[37] == 29);
    assert(tcoef_aic_order()[29] == 46 && vlc::TCOEF_AIC_LENGTHS@[46] == 8 && vlc::TCOEF_AIC_CODES@[46] == 28);
    assert(tcoef_aic_order()[30] == 9 && vlc::TCOEF_AIC_LENGTHS@[9] == 8 && vlc::TCOEF_AIC_CODES@[9] == 27);
    assert(tcoef_aic_order()[31] == 87 && vlc::TCOEF_AIC_LENGTHS@[87] == 8 && vlc::TCOEF_AIC_CODES@[87] == 26);
    assert(tcoef_aic_order()[32] == 88 && vlc::TCOEF_AIC_LENGTHS@[88] == 8 && vlc::TCOEF_AIC_CODES@[88] == 25);
    assert(tcoef_aic_order()[33] == 89 && vlc::TCOEF_AIC_LENGTHS@[89] == 8 && vlc::TCOEF_AIC_CODES@[89] == 24);
    assert(tcoef_aic_order()[34] == 90 && vlc::TCOEF_AIC_LENGTHS@[90] == 8 && vlc::TCOEF_AIC_CODES@[90] == 23);
    assert(tcoef_aic_order()[35] == 91 && vlc::TCOEF_AIC_LENGTHS@[91] == 8 && vlc::TCOEF_AIC_CODES@[91] == 22);
    assert(tcoef_aic_order()[36] == 86 && vlc::TCOEF_AIC_LENGTHS@[86] == 8 && vlc::TCOEF_AIC_CODES@[86] == 21);
    assert(tcoef_aic_order()[37] == 84 && vlc::TCOEF_AIC_LENGTHS@[84] == 8 && vlc::TCOEF_AIC_CODES@[84] == 20);
    assert(tcoef_aic_order()[38] == 61 && vlc::TCOEF_AIC_LENGTHS@[61] == 8 && vlc::TCOEF_AIC_CODES@[61] == 19);
    assert(tcoef_aic_order()[39] == 50 && vlc::TCOEF_AIC_LENGTHS@[50] == 9 && vlc::TCOEF_AIC_CODES@[50] == 37);
    assert(tcoef_aic_order()[40] == 52 && vlc::TCOEF_AIC_LENGTHS@[52] == 9 && vlc::TCOEF_AIC_CODES@[52] == 36);
    assert(tcoef_aic_order()[41] == 41 && vlc::TCOEF_AIC_LENGTHS@[41] == 9 && vlc::TCOEF_AIC_CODES@[41] == 35);
    assert(tcoef_aic_order()[42] == 44 && vlc::TCOEF_AIC_LENGTHS@[44] == 9 && vlc::TCOEF_AIC_CODES@[44] == 34);
    assert(tcoef_aic_order()[43] == 11 && vlc::TCOEF_AIC_LENGTHS@[11] == 9 && vlc::TCOEF_AIC_CODES@[11] == 33);
    assert(tcoef_aic_order()[44] == 10 && vlc::TCOEF_AIC_LENGTHS@[10] == 9 && vlc::TCOEF_AIC_CODES@[10] == 32);
    assert(tcoef_aic_order()[45] == 17 && vlc::TCOEF_AIC_LENGTHS@[17] == 9 && vlc::TCOEF_AIC_CODES@[17] == 31);
    assert(tcoef_aic_order()[46] == 16 && vlc::TCOEF_AIC_LENGTHS@[16] == 9 && vlc::TCOEF_AIC_CODES@[16] == 30);
    assert(tcoef_aic_order()[47] == 15 && vlc::TCOEF_AIC_LENGTHS@[15] == 9 && vlc::TCOEF_AIC_CODES@[15] == 29);
    assert(tcoef_aic_order()[48] == 14 && vlc::TCOEF_AIC_LENGTHS@[14] == 9 && vlc::TCOEF_AIC_CODES@[14] == 28);
    assert(tcoef_aic_order()[49] == 13 && vlc::TCOEF_AIC_LENGTHS@[13] == 9 && vlc::TCOEF_AIC_CODES@[13] == 27);
    assert(tcoef_aic_order()[50] == 12 && vlc::TCOEF_AIC_LENGTHS@[12] == 9 && vlc::TCOEF_AIC_CODES@[12] == 26);
    assert(tcoef_aic_order()[51] == 92 && vlc::TCOEF_AIC_LENGTHS@[92] == 9 && vlc::TCOEF_AIC_CODES@[92] == 25);
    assert(tcoef_aic_order()[52] == 95 && vlc::TCOEF_AIC_LENGTHS@[95] == 9 && vlc::TCOEF_AIC_CODES@[95] == 24);
    assert(tcoef_aic_order()[53] == 96 && vlc::TCOEF_AIC_LENGTHS@[96] == 9 && vlc::TCOEF_AIC_CODES@[96] == 23);
    assert(tcoef_aic_order()[54] == 94 && vlc::TCOEF_AIC_LENGTHS@[94] == 9 && vlc::TCOEF_AIC_CODES@[94] == 22);
    assert(tcoef_aic_order()[55] == 93 && vlc::TCOEF_AIC_LENGTHS@[93] == 9 && vlc::TCOEF_AIC_CODES@[93] == 21);
    assert(tcoef_aic_order()[56] == 73 && vlc::TCOEF_AIC_LENGTHS@[73] == 9 && vlc::TCOEF_AIC_CODES@[73] == 20);
    assert(tcoef_aic_order()[57] == 69 && vlc::TCOEF_AIC_LENGTHS@[69] == 9 && vlc::TCOEF_AIC_CODES@[69] == 19);
    assert(tcoef_aic_order()[58] == 63 && vlc::TCOEF_AIC_LENGTHS@[63] == 9 && vlc::TCOEF_AIC_CODES@[63] == 18);
    assert(tcoef_aic_order()[59] == 62 && vlc::TCOEF_AIC_LENGTHS@[62] == 9 && vlc::TCOEF_AIC_CODES@[62] == 17);
    assert(tcoef_aic_order()[60] == 54 && vlc::TCOEF_AIC_LENGTHS@[54] == 10 && vlc::TCOEF_AIC_CODES@[54] == 33);
    assert(tcoef_aic_order()[61] == 55 && vlc::TCOEF_AIC_LENGTHS@[55] == 10 && vlc::TCOEF_AIC_CODES@[55] == 32);
    assert(tcoef_aic_order()[62] == 102 && vlc::TCOEF_AIC_LENGTHS@[102] == 7 && vlc::TCOEF_AIC_CODES@[102] == 3);
    assert(tcoef_aic_order()[63] == 67 && vlc::TCOEF_AIC_LENGTHS@[67] == 12 && vlc::TCOEF_AIC_CODES@[67] == 95);
    assert(tcoef_aic_order()[64] == 77 && vlc::TCOEF_AIC_LENGTHS@[77] == 12 && vlc::TCOEF_AIC_CODES@[77] == 94);
    assert(tcoef_aic_order()[65] == 81 && vlc::TCOEF_AIC_LENGTHS@[81] == 12 && vlc::TCOEF_AIC_CODES@[81] == 93);
    assert(tcoef_aic_order()[66] == 83 && vlc::TCOEF_AIC_LENGTHS@[83] == 12 && vlc::TCOEF_AIC_CODES@[83] == 92);
    assert(tcoef_aic_order()[67] == 85 && vlc::TCOEF_AIC_LENGTHS@[85] == 12 && vlc::TCOEF_AIC_CODES@[85] == 91);
    assert(tcoef_aic_order()[68] == 101 && vlc::TCOEF_AIC_LENGTHS@[101] == 12 && vlc::TCOEF_AIC_CODES@[101] == 90);
    assert(tcoef_aic_order()[69] == 100 && vlc::TCOEF_AIC_LENGTHS@[100] == 12 && vlc::TCOEF_AIC_CODES@[100] == 89);
    assert(tcoef_aic_order()[70] == 99 && vlc::TCOEF_AIC_LENGTHS@[99] == 12 && vlc::TCOEF_AIC_CODES@[99] == 88);
    assert(tcoef_aic_order()[71] == 20 && vlc::TCOEF_AIC_LENGTHS@[20] == 12 && vlc::TCOEF_AIC_CODES@[20] == 87);
    assert(tcoef_aic_order()[72] == 21 && vlc::TCOEF_AIC_LENGTHS@[21] == 12 && vlc::TCOEF_AIC_CODES@[21] == 86);
    assert(tcoef_aic_order()[73] == 22 && vlc::TCOEF_AIC_LENGTHS@[22] == 12 && vlc::TCOEF_AIC_CODES@[22] == 85);
    assert(tcoef_aic_order()[74] == 23 && vlc::TCOEF_AIC_LENGTHS@[23] == 12 && vlc::TCOEF_AIC_CODES@[23] == 84);
    assert(tcoef_aic_order()[75] == 24 && vlc::TCOEF_AIC_LENGTHS@[24] == 12 && vlc::TCOEF_AIC_CODES@[24] == 83);
    assert(tcoef_aic_order()[76] == 45 && vlc::TCOEF_AIC_LENGTHS@[45] == 12 && vlc::TCOEF_AIC_CODES@[45] == 82);
    assert(tcoef_aic_order()[77] == 39 && vlc::TCOEF_AIC_LENGTHS@[39] == 12 && vlc::TCOEF_AIC_CODES@[39] == 81);
    assert(tcoef_aic_order()[78] == 31 && vlc::TCOEF_AIC_LENGTHS@[31] == 12 && vlc::TCOEF_AIC_CODES@[31] == 80);
    assert(tcoef_aic_order()[79] == 65 && vlc::TCOEF_AIC_LENGTHS@[65] == 11 && vlc::TCOEF_AIC_CODES@[65] == 39);
    assert(tcoef_aic_order()[80] == 66 && vlc::TCOEF_AIC_LENGTHS@[66] == 11 && vlc::TCOEF_AIC_CODES@[66] == 38);
    assert(tcoef_aic_order()[81] == 71 && vlc::TCOEF_AIC_LENGTHS@[71] == 11 && vlc::TCOEF_AIC_CODES@[71] == 37);
    assert(tcoef_aic_order()[82] == 74 && vlc::TCOEF_AIC_LENGTHS@[74] == 11 && vlc::TCOEF_AIC_CODES@[74] == 36);
    assert(tcoef_aic_order()[83] == 18 && vlc::TCOEF_AIC_LENGTHS@[18] == 11 && vlc::TCOEF_AIC_CODES@[18] == 35);
    assert(tcoef_aic_order()[84] == 19 && vlc::TCOEF_AIC_LENGTHS@[19] == 11 && vlc::TCOEF_AIC_CODES@[19] == 34);
    assert(tcoef_aic_order()[85] == 30 && vlc::TCOEF_AIC_LENGTHS@[30] == 11 && vlc::TCOEF_AIC_CODES@[30] == 33);
    assert(tcoef_aic_order()[86] == 57 && vlc::TCOEF_AIC_LENGTHS@[57] == 11 && vlc::TCOEF_AIC_CODES@[57] == 32);
    assert(tcoef_aic_order()[87] == 29 && vlc::TCOEF_AIC_LENGTHS@[29] == 10 && vlc::TCOEF_AIC_CODES@[29] == 15);
    assert(tcoef_aic_order()[88] == 34 && vlc::TCOEF_AIC_LENGTHS@[34] == 10 && vlc::TCOEF_AIC_CODES@[34] == 14);
    assert(tcoef_aic_order()[89] == 38 && vlc::TCOEF_AIC_LENGTHS@[38] == 10 && vlc::TCOEF_AIC_CODES@[38] == 13);
    assert(tcoef_aic_order()[90] == 47 && vlc::TCOEF_AIC_LENGTHS@[47] == 10 && vlc::TCOEF_AIC_CODES@[47] == 12);
    assert(tcoef_aic_order()[91] == 49 && vlc::TCOEF_AIC_LENGTHS@[49] == 10 && vlc::TCOEF_AIC_CODES@[49] == 11);
    assert(tcoef_aic_order()[92] == 51 && vlc::TCOEF_AIC_LENGTHS@[51] == 10 && vlc::TCOEF_AIC_CODES@[51] == 10);
    assert(tcoef_aic_order()[93] == 35 && vlc::TCOEF_AIC_LENGTHS@[35] == 10 && vlc::TCOEF_AIC_CODES@[35] == 9);
    assert(tcoef_aic_order()[94] == 56 && vlc::TCOEF_AIC_LENGTHS@[56] == 10 && vlc::TCOEF_AIC_CODES@[56] == 8);
    assert(tcoef_aic_order()[95] == 79 && vlc::TCOEF_AIC_LENGTHS@[79] == 10 && vlc::TCOEF_AIC_CODES@[79] == 7);
    assert(tcoef_aic_order()[96] == 76 && vlc::TCOEF_AIC_LENGTHS@[76] == 10 && vlc::TCOEF_AIC_CODES@[76] == 6);
    assert(tcoef_aic_order()[97] == 70 && vlc::TCOEF_AIC_LENGTHS@[70] == 10 && vlc::TCOEF_AIC_CODES@[70] == 5);
    assert(tcoef_aic_order()[98] == 64 && vlc::TCOEF_AIC_LENGTHS@[64] == 10 && vlc::TCOEF_AIC_CODES@[64] == 4);
    assert(tcoef_aic_order()[99] == 42 && vlc::TCOEF_AIC_LENGTHS@[42] == 11 && vlc::TCOEF_AIC_CODES@[42] == 7);
    assert(tcoef_aic_order()[100] == 53 && vlc::TCOEF_AIC_LENGTHS@[53] == 11 && vlc::TCOEF_AIC_CODES@[53] == 6);
    assert(tcoef_aic_order()[101] == 98 && vlc::TCOEF_AIC_LENGTHS@[98] == 11 && vlc::TCOEF_AIC_CODES@[98] == 5);
    assert(tcoef_aic_order()[102] == 97 && vlc::TCOEF_AIC_LENGTHS@[97] == 11 && vlc::TCOEF_AIC_CODES@[97] == 4);
}

/// MCBPC entries come in fours: within one macroblock type the four chroma
/// patterns in order.
pub proof fn types_come_with_four_patterns(c: u8)
    requires
        c < 4,
    ensures
        macroblock_layer::mcbpc_intra_entry(c as int) == (MbType::Intra, c),
        macroblock_layer::mcbpc_intra_entry(4 + c) == (MbType::IntraQ, c),
        macroblock_layer::mcbpc_intra_entry(8) == (MbType::Stuffing, 0u8),
        macroblock_layer::mcbpc_inter_entry(c as int) == (MbType::Inter, c),
        macroblock_layer::mcbpc_inter_entry(4 + c) == (MbType::Intra, c),
        macroblock_layer::mcbpc_inter_entry(8 + c) == (MbType::InterQ, c),
        macroblock_layer::mcbpc_inter_entry(12 + c) == (MbType::IntraQ, c),
        macroblock_layer::mcbpc_inter_entry(16 + c) == (MbType::Inter4V, c),
        macroblock_layer::mcbpc_inter_entry(20) == (MbType::Stuffing, 0u8),
        macroblock_layer::mcbpc_inter_entry(21 + c) == (MbType::Inter4VQ, c),
{
}

/// A vector difference is a magnitude and, unless that is 0, a sign bit behind it:
/// 0 to the right or down, 1 to the left or up.
pub proof fn sign_bits_turn_differences_round(s: Seq<bool>, at: int, m: int, p: int)
    requires
        vlc::mvd_code(s, at) == Code::Entry(m, p),
        0 <= m < 32,
        0 <= p < s.len(),
    ensures
        m == 0 ==> macroblock_layer::mvd_component_at(s, at) == Ok::<(i8, int), crate::error::Error>(
            (0i8, p),
        ),
        m > 0 && !s[p] ==> macroblock_layer::mvd_component_at(s, at) == Ok::<
            (i8, int),
            crate::error::Error,
        >((m as i8, p + 1)),
        m > 0 && s[p] ==> macroblock_layer::mvd_component_at(s, at) == Ok::<
            (i8, int),
            crate::error::Error,
        >(((-m) as i8, p + 1)),
{
}

/// Of a vector difference the horizontal component comes first.
pub proof fn horizontal_differences_come_first(s: Seq<bool>, at: int)
    requires
        macroblock_layer::mvd_at(s, at) is Ok,
    ensures
        ({
            let (d, end) = macroblock_layer::mvd_at(s, at)->Ok_0;
            &&& macroblock_layer::mvd_component_at(s, at) is Ok
            &&& macroblock_layer::mvd_component_at(s, at)->Ok_0.0 == d.dx_half
            &&& macroblock_layer::mvd_component_at(
                s,
                macroblock_layer::mvd_component_at(s, at)->Ok_0.1,
            ) == Ok::<(i8, int), crate::error::Error>((d.dy_half, end))
        }),
{
}

/// A quantiser changes by one or two steps at a time, finer for the first two
/// codes and coarser for the last two, and stays between 1 and 31.
pub proof fn quantisers_change_by_small_steps(before: int, code: nat)
    requires
        1 <= before <= 31,
        code < 4,
    ensures
        ({
            let after = macroblock::requantised(
                before,
                macroblock_layer::dquant_entry(code) as int,
            );
            &&& 1 <= after <= 31
            &&& code == 0 && before > 1 ==> after == before - 1
            &&& code == 1 && before > 2 ==> after == before - 2
            &&& code == 2 && before < 31 ==> after == before + 1
            &&& code == 3 && before < 30 ==> after == before + 2
            &&& code < 2 ==> after <= before
            &&& code >= 2 ==> after >= before
        }),
{
}

/// A single 0 announces nothing of the B-macroblock, 10 a vector difference, and
/// 11 that with a pattern of blocks.
pub proof fn modb_bits_announce_more_and_more(s: Seq<bool>, at: int)
    requires
        0 <= at,
        at + 1 < s.len(),
    ensures
        macroblock_layer::modb_at(s, at) == Ok::<(ModbPresence, int), crate::error::Error>(
            if !s[at] {
                (ModbPresence::Neither, at + 1)
            } else if !s[at + 1] {
                (ModbPresence::MvdbOnly, at + 2)
            } else {
                (ModbPresence::CbpbAndMvdb, at + 2)
            },
        ),
{
}

/// In an improved PB-frame, ones that end in a 0 name the ways of prediction in
/// turn, each first without and then with a pattern of blocks; five ones need no
/// 0.
pub proof fn improved_modb_counts_ones(s: Seq<bool>, at: int, n: nat)
    requires
        0 <= at,
        n <= 5,
        at + 5 < s.len(),
        forall|i: int| 0 <= i < n ==> #[trigger] s[at + i],
        n < 5 ==> !s[at + n],
    ensures
        macroblock_layer::improved_modb_at(s, at) is Ok,
        ({
            let (m, end) = macroblock_layer::improved_modb_at(s, at)->Ok_0;
            &&& end == at + (if n < 5 {
                n + 1
            } else {
                5
            })
            &&& m.mode == (if n == 0 || n == 1 {
                BpbCodingMode::Bidirectional
            } else if n == 2 || n == 3 {
                BpbCodingMode::Forward
            } else {
                BpbCodingMode::Backward
            })
            &&& m.has_cbpb <==> n == 1 || n == 3 || n == 5
        }),
{
    reveal_with_fuel(macroblock_layer::ones_at, 6);
    assert(n > 0 ==> s[at + 0]);
    assert(n > 1 ==> s[at + 1]);
    assert(n > 2 ==> s[at + 2]);
    assert(n > 3 ==> s[at + 3]);
    assert(n > 4 ==> s[at + 4]);
}

/// The direction of advanced INTRA prediction: 0 for the first coefficient only,
/// 10 from above, 11 from the left.
pub proof fn intra_mode_bits_name_directions(s: Seq<bool>, at: int)
    requires
        0 <= at,
        at + 1 < s.len(),
    ensures
        macroblock_layer::intra_mode_at(s, at) == Ok::<(IntraMode, int), crate::error::Error>(
            if !s[at] {
                (IntraMode::DcOnly, at + 1)
            } else if !s[at + 1] {
                (IntraMode::Vertical, at + 2)
            } else {
                (IntraMode::Horizontal, at + 2)
            },
        ),
{
}

/// In a plain P-picture a macroblock whose first bit is 1 is skipped and keeps the
/// quantiser. Else MCBPC follows, then CBPY, then the quantiser change of a type
/// that has one, and then one vector difference for a macroblock that is
/// predicted by one vector and none for an INTRA one.
pub proof fn macroblock_headers_come_in_order(s: Seq<bool>, at: int, ctx: MbContext)
    requires
        ctx.picture_coding_type == H263PictureCodingType::Inter,
        !ctx.aic_intra_mode,
        !ctx.pb_frames,
        1 <= ctx.quantiser_before <= 31,
        0 <= at < s.len(),
        macroblock_layer::macroblock_at(s, at, ctx) is Ok,
    ensures
        ({
            let (mb, end) = macroblock_layer::macroblock_at(s, at, ctx)->Ok_0;
            let m = macroblock_layer::mcbpc_at(s, at + 1, true);
            let y = macroblock_layer::cbpy_at(s, m->Ok_0.1);
            let q = bits::field_at(s, y->Ok_0.1, 2);
            let changes = mb.mb_type == Some(MbType::InterQ) || mb.mb_type == Some(MbType::IntraQ);
            let v = if changes {
                q->Ok_0.1
            } else {
                y->Ok_0.1
            };
            let intra = mb.mb_type == Some(MbType::Intra) || mb.mb_type == Some(MbType::IntraQ);
            let inter = mb.mb_type == Some(MbType::Inter) || mb.mb_type == Some(MbType::InterQ);
            &&& mb.coded <==> !s[at]
            &&& s[at] ==> end == at + 1 && mb.quantiser_after == ctx.quantiser_before
            &&& !s[at] ==> m is Ok && mb.mb_type == Some(m->Ok_0.0.0)
            &&& !s[at] && (intra || inter) ==> {
                &&& mb.cbpc == Some(m->Ok_0.0.1)
                &&& y is Ok
                &&& mb.cbpy == Some(y->Ok_0.0)
                &&& changes ==> q is Ok && mb.dquant == Some(
                    macroblock_layer::dquant_entry(q->Ok_0.0),
                ) && mb.quantiser_after == macroblock::requantised(
                    ctx.quantiser_before as int,
                    macroblock_layer::dquant_entry(q->Ok_0.0) as int,
                )
                &&& !changes ==> mb.quantiser_after == ctx.quantiser_before
            }
            &&& !s[at] && intra ==> end == v && mb.mvd is None
            &&& !s[at] && inter ==> {
                &&& macroblock_layer::mvd_at(s, v) is Ok
                &&& mb.mvd == Some(macroblock_layer::mvd_at(s, v)->Ok_0.0)
                &&& end == macroblock_layer::mvd_at(s, v)->Ok_0.1
            }
        }),
{
    reveal(macroblock_layer::macroblock_at);
}

/// A coefficient event of the table is followed by its sign: 0 positive, 1
/// negative. It keeps the table's flag and run.
pub proof fn sign_bits_turn_coefficients_round(s: Seq<bool>, at: int, i: int, p: int)
    requires
        vlc::tcoef_code(s, at) == Code::Entry(i, p),
        0 <= i < 102,
        0 <= p < s.len(),
    ensures
        block_layer::event_at(s, at, false) is Ok,
        ({
            let (e, end) = block_layer::event_at(s, at, false)->Ok_0;
            let (last, run, level) = crate::block::table_row(i);
            &&& end == p + 1
            &&& e.last == last
            &&& e.run == run
            &&& !s[p] ==> e.level == level
            &&& s[p] ==> e.level == -level
        }),
{
}

/// The table of coefficient events is sorted by the last flag, then by run, then
/// by level, from the event without zeros and with level 1 on.
pub proof fn events_are_sorted(i: int)
    requires
        0 <= i < 101,
    ensures
        crate::block::table_row(0) == (false, 0u8, 1u8),
        crate::block::table_row(58) == (true, 0u8, 1u8),
        crate::block::table_row(101) == (true, 40u8, 1u8),
        ({
            let (last, run, level) = crate::block::table_row(i);
            let (next_last, next_run, next_level) = crate::block::table_row(i + 1);
            ||| i == 57
            ||| next_last == last && next_run == run && next_level == level + 1
            ||| next_last == last && next_run == run + 1 && next_level == 1
        }),
{
}

/// Behind the escape code come the last flag, the run in six bits and the level in
/// eight, negative ones as the complement.
pub proof fn escaped_events_are_spelled_out(s: Seq<bool>, at: int)
    requires
        0 <= at,
        bits::has_bits(s, at, 15),
        bits::field(s, at + 7, 8) != 0,
        bits::field(s, at + 7, 8) != 128,
    ensures
        block_layer::escaped_event_at(s, at) is Ok,
        ({
            let (e, end) = block_layer::escaped_event_at(s, at)->Ok_0;
            let v = bits::field(s, at + 7, 8) as int;
            &&& end == at + 15
            &&& e.last == s[at]
            &&& e.run == bits::field(s, at + 1, 6)
            &&& -127 <= e.level <= 127
            &&& (e.level - v) % 256 == 0
        }),
{
    bits::lemma_value_bound(s.subrange(at + 1, at + 7));
    bits::lemma_value_bound(s.subrange(at + 7, at + 15));
    vstd::arithmetic::power2::lemma2_to64();
}

/// An event fills one slot, as many slots further on as its run says. If it is the
/// last, the block ends there; else the next event goes on right behind.
pub proof fn runs_skip_slots(s: Seq<bool>, at: int, aic: bool, so_far: Levels, slot: int)
    requires
        0 <= slot < 64,
        so_far.levels.len() == 64,
        block_layer::event_at(s, at, aic) is Ok,
    ensures
        ({
            let (e, p) = block_layer::event_at(s, at, aic)->Ok_0;
            let k = slot + e.run;
            let r = block_layer::events_at(s, at, aic, so_far, slot);
            &&& k < 64 && e.last ==> {
                &&& r is Ok
                &&& r->Ok_0.1 == p
                &&& r->Ok_0.0.events == so_far.events + 1
                &&& r->Ok_0.0.levels.len() == 64
                &&& r->Ok_0.0.levels[k] == e.level
                &&& forall|i: int|
                    0 <= i < 64 && i != k ==> #[trigger] r->Ok_0.0.levels[i] == so_far.levels[i]
            }
            &&& k < 63 && !e.last ==> r == block_layer::events_at(
                s,
                p,
                aic,
                Levels { levels: so_far.levels.update(k, e.level), events: so_far.events + 1 },
                k + 1,
            )
            &&& k >= 64 ==> r is Err
        }),
{
}

/// A block that adds to a prediction fills its slots from the first on; an INTRA
/// block has its first level from INTRADC and fills the others.
pub proof fn intra_blocks_start_behind_their_first_level(s: Seq<bool>, at: int)
    ensures
        block_layer::block_at(s, at, false, true) == block_layer::events_at(
            s,
            at,
            false,
            Levels { levels: Seq::new(64, |k: int| 0i16), events: 0 },
            0,
        ),
        block_layer::intradc_at(s, at) matches Ok((dc, p)) ==> block_layer::block_at(
            s,
            at,
            true,
            true,
        ) == block_layer::events_at(
            s,
            p,
            false,
            Levels { levels: Seq::new(64, |k: int| 0i16).update(0, dc), events: 0 },
            1,
        ),
        block_layer::intradc_at(s, at) matches Ok((dc, p)) ==> block_layer::block_at(
            s,
            at,
            true,
            false,
        ) matches Ok((l, end)) && end == p && l.levels[0] == dc && (forall|k: int|
            0 < k < 64 ==> #[trigger] l.levels[k] == 0),
{
    assert(block_layer::no_levels().update(0, 0i16) =~= block_layer::no_levels());
}

/// A header of a group of blocks is a start code of sixteen zeros and a one, the
/// group's number in five bits, the frame identifier in two and the quantiser in
/// five, which is not 0.
pub proof fn group_headers_are_read_as_they_are_written(
    s: Seq<bool>,
    at: int,
    number: nat,
    frame_id: nat,
    quantiser: nat,
)
    requires
        0 <= at,
        at + 29 <= s.len(),
        number < 32,
        frame_id < 4,
        1 <= quantiser < 32,
        s.subrange(at, at + 17) == bits::bits_of(1, 17),
        s.subrange(at + 17, at + 22) == bits::bits_of(number, 5),
        s.subrange(at + 22, at + 24) == bits::bits_of(frame_id, 2),
        s.subrange(at + 24, at + 29) == bits::bits_of(quantiser, 5),
    ensures
        gob_header::gob_at(s, at) is Ok,
        gob_header::gob_at(s, at)->Ok_0.0.group_number == number,
        gob_header::gob_at(s, at)->Ok_0.0.frame_id == frame_id,
        gob_header::gob_at(s, at)->Ok_0.0.quantiser == quantiser,
        gob_header::gob_at(s, at)->Ok_0.1 == at + 29,
{
    vstd::arithmetic::power2::lemma2_to64();
    bits::lemma_value_of_bits(1, 17);
    bits::lemma_value_of_bits(number, 5);
    bits::lemma_value_of_bits(frame_id, 2);
    bits::lemma_value_of_bits(quantiser, 5);
}

/// The P-picture of a PB-frame lies as far behind the previous picture as its time
/// is later, counted modulo 256, and the B-picture as far as the three bits say;
/// two bits tell how the B-blocks' quantiser follows.
pub proof fn times_count_from_the_previous_picture(
    s: Seq<bool>,
    at: int,
    tr: u8,
    prev_tr: u8,
    annex_m: bool,
)
    requires
        0 <= at,
        bits::has_bits(s, at, 5),
    ensures
        ({
            let r = decode::times_at(s, at, tr, prev_tr, annex_m);
            let trb = bits::field(s, at, 3);
            &&& r is Ok <==> trb != 0 && tr != prev_tr
            &&& r matches Ok((t, end)) ==> {
                &&& end == at + 5
                &&& t.trb == trb
                &&& 1 <= t.trd <= 255
                &&& (prev_tr + t.trd) % 256 == tr
                &&& t.dbquant == bits::field(s, at + 3, 2)
                &&& t.annex_m == annex_m
            }
        }),
{
    bits::lemma_value_bound(s.subrange(at, at + 3));
    bits::lemma_value_bound(s.subrange(at + 3, at + 5));
    vstd::arithmetic::power2::lemma2_to64();
}

} // verus!
