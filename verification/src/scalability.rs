//! Macroblock headers of enhancement-layer pictures.
//!
//! B-pictures and EP-pictures send a macroblock type and then, where there is
//! texture, a chroma pattern; EI-pictures send both in one code.

use crate::bits;
use crate::error::Error;
use oxideav_core::bits::BitReader;
use vstd::prelude::*;

verus! {

/// Kinds of enhancement-layer pictures.
#[derive(Clone, Copy, Debug, PartialEq, Eq, Structural)]
pub enum ScalabilityPictureType {
    /// Between two pictures of the layer below.
    BPicture,
    /// Predicted from its own layer and from the layer below.
    EpPicture,
    /// Predicted from the layer below only.
    EiPicture,
}

/// How a macroblock is predicted.
#[derive(Clone, Copy, Debug, PartialEq, Eq, Structural)]
pub enum ScalabilityPredType {
    /// From both sides, with vectors derived from the layer below.
    Direct,
    Forward,
    Backward,
    /// From the same instant of the layer below.
    Upward,
    Bidirectional,
    Intra,
}

/// A macroblock header up to and including the chroma pattern.
#[derive(Clone, Copy, Debug, PartialEq, Eq, Structural)]
pub struct ScalabilityMbHeader {
    pub coded: bool,
    pub pred_type: ScalabilityPredType,
    /// A forward vector difference follows.
    pub has_mvdfw: bool,
    /// A backward vector difference follows.
    pub has_mvdbw: bool,
    /// Coded block patterns are sent.
    pub has_cbp: bool,
    /// A quantiser change follows.
    pub has_dquant: bool,
    /// Which chroma blocks have coefficients: Cb, Cr.
    pub cbpc: u8,
    /// CBPY is to be read as INTRA macroblocks count it.
    pub cbpy_uses_intra_column: bool,
}

impl ScalabilityMbHeader {
    /// The macroblock is not predicted.
    pub fn is_intra(self) -> (b: bool)
        ensures
            b == (self.pred_type == ScalabilityPredType::Intra),
    {
        matches!(self.pred_type, ScalabilityPredType::Intra)
    }
}

/// What a macroblock type code says.
#[derive(Clone, Copy, Debug, PartialEq, Eq, Structural)]
pub struct MbTypeRow {
    pub pred_type: ScalabilityPredType,
    pub has_mvdfw: bool,
    pub has_mvdbw: bool,
    pub has_cbp: bool,
    pub has_dquant: bool,
}

/// What an EI-picture's combined code says.
#[derive(Clone, Copy, Debug, PartialEq, Eq, Structural)]
pub struct EiMcbpc {
    pub pred_type: ScalabilityPredType,
    pub has_dquant: bool,
    pub cbpc: u8,
}

/// The `n`-bit code `v` lies at bit `at`.
pub open spec fn is_code(s: Seq<bool>, at: int, v: nat, n: int) -> bool {
    bits::has_bits(s, at, n) && bits::field(s, at, n) == v
}

/// What reading a code gives, and its length in bits.
pub open spec fn matched<T>(row: T, n: int) -> Result<(T, int), Error> {
    Ok((row, n))
}

/// What reading a chroma pattern at bit `at` gives.
pub open spec fn cbpc_read(s: Seq<bool>, at: int) -> Result<(u8, int), Error> {
    if is_code(s, at, 0b0, 1) {
        matched(
            0u8,
            1,
        )
    } else if is_code(s, at, 0b10, 2) {
        matched(
            1u8,
            2,
        )
    } else if is_code(s, at, 0b111, 3) {
        matched(
            2u8,
            3,
        )
    } else if is_code(s, at, 0b110, 3) {
        matched(
            3u8,
            3,
        )
    } else {
        Err(Error::UnexpectedEof)
    }
}

/// What reading a B-picture's macroblock type at bit `at` gives. Seven zeros
/// begin no macroblock.
pub open spec fn mbtype_b_read(s: Seq<bool>, at: int) -> Result<(MbTypeRow, int), Error> {
    if is_code(s, at, 0b11, 2) {
        matched(
            MbTypeRow {
                pred_type: ScalabilityPredType::Direct,
                has_mvdfw: false,
                has_mvdbw: false,
                has_cbp: true,
                has_dquant: false,
            },
            2,
        )
    } else if is_code(s, at, 0b0001, 4) {
        matched(
            MbTypeRow {
                pred_type: ScalabilityPredType::Direct,
                has_mvdfw: false,
                has_mvdbw: false,
                has_cbp: true,
                has_dquant: true,
            },
            4,
        )
    } else if is_code(s, at, 0b100, 3) {
        matched(
            MbTypeRow {
                pred_type: ScalabilityPredType::Forward,
                has_mvdfw: true,
                has_mvdbw: false,
                has_cbp: false,
                has_dquant: false,
            },
            3,
        )
    } else if is_code(s, at, 0b101, 3) {
        matched(
            MbTypeRow {
                pred_type: ScalabilityPredType::Forward,
                has_mvdfw: true,
                has_mvdbw: false,
                has_cbp: true,
                has_dquant: false,
            },
            3,
        )
    } else if is_code(s, at, 0b00110, 5) {
        matched(
            MbTypeRow {
                pred_type: ScalabilityPredType::Forward,
                has_mvdfw: true,
                has_mvdbw: false,
                has_cbp: true,
                has_dquant: true,
            },
            5,
        )
    } else if is_code(s, at, 0b010, 3) {
        matched(
            MbTypeRow {
                pred_type: ScalabilityPredType::Backward,
                has_mvdfw: false,
                has_mvdbw: true,
                has_cbp: false,
                has_dquant: false,
            },
            3,
        )
    } else if is_code(s, at, 0b011, 3) {
        matched(
            MbTypeRow {
                pred_type: ScalabilityPredType::Backward,
                has_mvdfw: false,
                has_mvdbw: true,
                has_cbp: true,
                has_dquant: false,
            },
            3,
        )
    } else if is_code(s, at, 0b00111, 5) {
        matched(
            MbTypeRow {
                pred_type: ScalabilityPredType::Backward,
                has_mvdfw: false,
                has_mvdbw: true,
                has_cbp: true,
                has_dquant: true,
            },
            5,
        )
    } else if is_code(s, at, 0b00100, 5) {
        matched(
            MbTypeRow {
                pred_type: ScalabilityPredType::Bidirectional,
                has_mvdfw: true,
                has_mvdbw: true,
                has_cbp: false,
                has_dquant: false,
            },
            5,
        )
    } else if is_code(s, at, 0b00101, 5) {
        matched(
            MbTypeRow {
                pred_type: ScalabilityPredType::Bidirectional,
                has_mvdfw: true,
                has_mvdbw: true,
                has_cbp: true,
                has_dquant: false,
            },
            5,
        )
    } else if is_code(s, at, 0b00001, 5) {
        matched(
            MbTypeRow {
                pred_type: ScalabilityPredType::Bidirectional,
                has_mvdfw: true,
                has_mvdbw: true,
                has_cbp: true,
                has_dquant: true,
            },
            5,
        )
    } else if is_code(s, at, 0b000001, 6) {
        matched(
            MbTypeRow {
                pred_type: ScalabilityPredType::Intra,
                has_mvdfw: false,
                has_mvdbw: false,
                has_cbp: true,
                has_dquant: false,
            },
            6,
        )
    } else if is_code(s, at, 0b0000001, 7) {
        matched(
            MbTypeRow {
                pred_type: ScalabilityPredType::Intra,
                has_mvdfw: false,
                has_mvdbw: false,
                has_cbp: true,
                has_dquant: true,
            },
            7,
        )
    } else if bits::has_bits(s, at, 7) {
        Err(Error::BadScalabilityMbType)
    } else {
        Err(Error::UnexpectedEof)
    }
}

/// What reading an EP-picture's macroblock type at bit `at` gives. Eight zeros
/// begin no macroblock.
pub open spec fn mbtype_ep_read(s: Seq<bool>, at: int) -> Result<(MbTypeRow, int), Error> {
    if is_code(s, at, 0b1, 1) {
        matched(
            MbTypeRow {
                pred_type: ScalabilityPredType::Forward,
                has_mvdfw: true,
                has_mvdbw: false,
                has_cbp: true,
                has_dquant: false,
            },
            1,
        )
    } else if is_code(s, at, 0b001, 3) {
        matched(
            MbTypeRow {
                pred_type: ScalabilityPredType::Forward,
                has_mvdfw: true,
                has_mvdbw: false,
                has_cbp: true,
                has_dquant: true,
            },
            3,
        )
    } else if is_code(s, at, 0b010, 3) {
        matched(
            MbTypeRow {
                pred_type: ScalabilityPredType::Upward,
                has_mvdfw: false,
                has_mvdbw: false,
                has_cbp: false,
                has_dquant: false,
            },
            3,
        )
    } else if is_code(s, at, 0b011, 3) {
        matched(
            MbTypeRow {
                pred_type: ScalabilityPredType::Upward,
                has_mvdfw: false,
                has_mvdbw: false,
                has_cbp: true,
                has_dquant: false,
            },
            3,
        )
    } else if is_code(s, at, 0b00001, 5) {
        matched(
            MbTypeRow {
                pred_type: ScalabilityPredType::Upward,
                has_mvdfw: false,
                has_mvdbw: false,
                has_cbp: true,
                has_dquant: true,
            },
            5,
        )
    } else if is_code(s, at, 0b00010, 5) {
        matched(
            MbTypeRow {
                pred_type: ScalabilityPredType::Bidirectional,
                has_mvdfw: false,
                has_mvdbw: false,
                has_cbp: false,
                has_dquant: false,
            },
            5,
        )
    } else if is_code(s, at, 0b00011, 5) {
        matched(
            MbTypeRow {
                pred_type: ScalabilityPredType::Bidirectional,
                has_mvdfw: true,
                has_mvdbw: false,
                has_cbp: true,
                has_dquant: false,
            },
            5,
        )
    } else if is_code(s, at, 0b000001, 6) {
        matched(
            MbTypeRow {
                pred_type: ScalabilityPredType::Bidirectional,
                has_mvdfw: true,
                has_mvdbw: false,
                has_cbp: true,
                has_dquant: true,
            },
            6,
        )
    } else if is_code(s, at, 0b0000001, 7) {
        matched(
            MbTypeRow {
                pred_type: ScalabilityPredType::Intra,
                has_mvdfw: false,
                has_mvdbw: false,
                has_cbp: true,
                has_dquant: false,
            },
            7,
        )
    } else if is_code(s, at, 0b00000001, 8) {
        matched(
            MbTypeRow {
                pred_type: ScalabilityPredType::Intra,
                has_mvdfw: false,
                has_mvdbw: false,
                has_cbp: true,
                has_dquant: true,
            },
            8,
        )
    } else if bits::has_bits(s, at, 9) {
        Err(Error::BadScalabilityMbType)
    } else {
        Err(Error::UnexpectedEof)
    }
}

/// What reading an EI-picture's combined code at bit `at` gives. Eight zeros
/// begin no macroblock, and one code is not used.
pub open spec fn mcbpc_ei_read(s: Seq<bool>, at: int) -> Result<(EiMcbpc, int), Error> {
    if is_code(s, at, 0b1, 1) {
        matched(
            EiMcbpc { pred_type: ScalabilityPredType::Upward, has_dquant: false, cbpc: 0 },
            1,
        )
    } else if is_code(s, at, 0b001, 3) {
        matched(
            EiMcbpc { pred_type: ScalabilityPredType::Upward, has_dquant: false, cbpc: 1 },
            3,
        )
    } else if is_code(s, at, 0b010, 3) {
        matched(
            EiMcbpc { pred_type: ScalabilityPredType::Upward, has_dquant: false, cbpc: 2 },
            3,
        )
    } else if is_code(s, at, 0b011, 3) {
        matched(
            EiMcbpc { pred_type: ScalabilityPredType::Upward, has_dquant: false, cbpc: 3 },
            3,
        )
    } else if is_code(s, at, 0b0001, 4) {
        matched(
            EiMcbpc { pred_type: ScalabilityPredType::Upward, has_dquant: true, cbpc: 0 },
            4,
        )
    } else if is_code(s, at, 0b0000001, 7) {
        matched(
            EiMcbpc { pred_type: ScalabilityPredType::Upward, has_dquant: true, cbpc: 1 },
            7,
        )
    } else if is_code(s, at, 0b0000010, 7) {
        matched(
            EiMcbpc { pred_type: ScalabilityPredType::Upward, has_dquant: true, cbpc: 2 },
            7,
        )
    } else if is_code(s, at, 0b0000011, 7) {
        matched(
            EiMcbpc { pred_type: ScalabilityPredType::Upward, has_dquant: true, cbpc: 3 },
            7,
        )
    } else if is_code(s, at, 0b00000001, 8) {
        matched(
            EiMcbpc { pred_type: ScalabilityPredType::Intra, has_dquant: false, cbpc: 0 },
            8,
        )
    } else if is_code(s, at, 0b00001001, 8) {
        matched(
            EiMcbpc { pred_type: ScalabilityPredType::Intra, has_dquant: false, cbpc: 1 },
            8,
        )
    } else if is_code(s, at, 0b00001010, 8) {
        matched(
            EiMcbpc { pred_type: ScalabilityPredType::Intra, has_dquant: false, cbpc: 2 },
            8,
        )
    } else if is_code(s, at, 0b00001011, 8) {
        matched(
            EiMcbpc { pred_type: ScalabilityPredType::Intra, has_dquant: false, cbpc: 3 },
            8,
        )
    } else if is_code(s, at, 0b00001100, 8) {
        matched(
            EiMcbpc { pred_type: ScalabilityPredType::Intra, has_dquant: true, cbpc: 0 },
            8,
        )
    } else if is_code(s, at, 0b00001101, 8) {
        matched(
            EiMcbpc { pred_type: ScalabilityPredType::Intra, has_dquant: true, cbpc: 1 },
            8,
        )
    } else if is_code(s, at, 0b00001110, 8) {
        matched(
            EiMcbpc { pred_type: ScalabilityPredType::Intra, has_dquant: true, cbpc: 2 },
            8,
        )
    } else if is_code(s, at, 0b00001111, 8) {
        matched(
            EiMcbpc { pred_type: ScalabilityPredType::Intra, has_dquant: true, cbpc: 3 },
            8,
        )
    } else if is_code(s, at, 0b00001000, 8) || bits::has_bits(s, at, 9) {
        Err(Error::BadScalabilityMbType)
    } else {
        Err(Error::UnexpectedEof)
    }
}

/// CBPY is to be read as INTRA macroblocks count it.
pub open spec fn intra_column(pic: ScalabilityPictureType, pred_type: ScalabilityPredType) -> bool {
    ||| pred_type == ScalabilityPredType::Intra
    ||| pred_type == ScalabilityPredType::Upward
    ||| pred_type == ScalabilityPredType::Bidirectional && pic == ScalabilityPictureType::EpPicture
}

/// A macroblock that is not coded.
pub open spec fn skipped(
    pred_type: ScalabilityPredType,
    cbpy_uses_intra_column: bool,
) -> ScalabilityMbHeader {
    ScalabilityMbHeader {
        coded: false,
        pred_type,
        has_mvdfw: false,
        has_mvdbw: false,
        has_cbp: false,
        has_dquant: false,
        cbpc: 0,
        cbpy_uses_intra_column,
    }
}

/// The header of a coded macroblock of a B-picture or EP-picture.
pub open spec fn typed(pic: ScalabilityPictureType, row: MbTypeRow, cbpc: u8) -> ScalabilityMbHeader {
    ScalabilityMbHeader {
        coded: true,
        pred_type: row.pred_type,
        has_mvdfw: row.has_mvdfw,
        has_mvdbw: row.has_mvdbw,
        has_cbp: row.has_cbp,
        has_dquant: row.has_dquant,
        cbpc,
        cbpy_uses_intra_column: intra_column(pic, row.pred_type),
    }
}

/// What reading a macroblock header of a B-picture or EP-picture at bit `at`
/// gives.
pub open spec fn mb_header_b_ep_read(
    s: Seq<bool>,
    at: int,
    pic: ScalabilityPictureType,
) -> Result<(ScalabilityMbHeader, int), Error> {
    let b = pic == ScalabilityPictureType::BPicture;
    if !bits::has_bits(s, at, 1) {
        Err(Error::UnexpectedEof)
    } else if s[at] {
        Ok(
            (
                skipped(
                    if b {
                        ScalabilityPredType::Direct
                    } else {
                        ScalabilityPredType::Forward
                    },
                    false,
                ),
                1,
            ),
        )
    } else {
        match if b {
            mbtype_b_read(s, at + 1)
        } else {
            mbtype_ep_read(s, at + 1)
        } {
            Err(e) => Err(e),
            Ok((row, n)) => if !row.has_cbp {
                Ok((typed(pic, row, 0), 1 + n))
            } else {
                match cbpc_read(s, at + 1 + n) {
                    Err(e) => Err(e),
                    Ok((cbpc, m)) => Ok((typed(pic, row, cbpc), 1 + n + m)),
                }
            },
        }
    }
}

/// What reading a macroblock header of an EI-picture at bit `at` gives.
pub open spec fn mb_header_ei_read(s: Seq<bool>, at: int) -> Result<
    (ScalabilityMbHeader, int),
    Error,
> {
    if !bits::has_bits(s, at, 1) {
        Err(Error::UnexpectedEof)
    } else if s[at] {
        Ok((skipped(ScalabilityPredType::Upward, true), 1))
    } else {
        match mcbpc_ei_read(s, at + 1) {
            Err(e) => Err(e),
            Ok((m, n)) => Ok(
                (
                    ScalabilityMbHeader {
                        coded: true,
                        pred_type: m.pred_type,
                        has_mvdfw: false,
                        has_mvdbw: false,
                        has_cbp: true,
                        has_dquant: m.has_dquant,
                        cbpc: m.cbpc,
                        cbpy_uses_intra_column: true,
                    },
                    1 + n,
                ),
            ),
        }
    }
}

/// A reader has read one code as `spec` says.
pub open spec fn took<T>(
    before: BitReader,
    after: BitReader,
    spec_result: Result<(T, int), Error>,
    res: Result<T, Error>,
) -> bool {
    match spec_result {
        Ok((v, n)) => res == Ok::<T, Error>(v) && bits::advanced(before, after, n),
        Err(e) => res == Err::<T, Error>(e) && bits::moved_on(before, after),
    }
}

/// Fields of up to nine bits, bit by bit.
proof fn lemma_fields(s: Seq<bool>, at: int)
    requires
        0 <= at,
    ensures
        bits::has_bits(s, at, 1) ==> bits::field(s, at, 1) == bits::bit_value(s[at]),
        forall|n: int|
            2 <= n <= 9 && bits::has_bits(s, at, n) ==> #[trigger] bits::field(s, at, n) == 2
                * bits::field(s, at, n - 1) + bits::bit_value(s[at + n - 1]),
{
    if bits::has_bits(s, at, 1) {
        bits::lemma_bit_field(s, at);
    }
    assert forall|n: int| 2 <= n <= 9 && bits::has_bits(s, at, n) implies #[trigger] bits::field(
        s,
        at,
        n,
    ) == 2 * bits::field(s, at, n - 1) + bits::bit_value(s[at + n - 1]) by {
        assert(s.subrange(at, at + n).drop_last() =~= s.subrange(at, at + n - 1));
    }
}

/// Read a chroma pattern.
pub fn decode_cbpc(reader: &mut BitReader<'_>) -> (res: Result<u8, Error>)
    ensures
        took(
            *old(reader),
            *final(reader),
            cbpc_read(bits::stream(*old(reader)), bits::bits_read(*old(reader)) as int),
            res,
        ),
{
    proof {
        lemma_fields(bits::stream(*reader), bits::bits_read(*reader) as int);
    }
    if bits::read_flag(reader)? {
        if bits::read_flag(reader)? {
            if bits::read_flag(reader)? {
                Ok(
                    2,
                )
            } else {
                Ok(
                    3,
                )
            }
        } else {
            Ok(
                1,
            )
        }
    } else {
        Ok(
            0,
        )
    }
}

/// Read a B-picture's macroblock type.
pub fn decode_mbtype_b(reader: &mut BitReader<'_>) -> (res: Result<MbTypeRow, Error>)
    ensures
        took(
            *old(reader),
            *final(reader),
            mbtype_b_read(bits::stream(*old(reader)), bits::bits_read(*old(reader)) as int),
            res,
        ),
{
    proof {
        lemma_fields(bits::stream(*reader), bits::bits_read(*reader) as int);
    }
    if bits::read_flag(reader)? {
        if bits::read_flag(reader)? {
            Ok(
                MbTypeRow {
                pred_type: ScalabilityPredType::Direct,
                has_mvdfw: false,
                has_mvdbw: false,
                has_cbp: true,
                has_dquant: false,
            },
            )
        } else {
            if bits::read_flag(reader)? {
                Ok(
                    MbTypeRow {
                pred_type: ScalabilityPredType::Forward,
                has_mvdfw: true,
                has_mvdbw: false,
                has_cbp: true,
                has_dquant: false,
            },
                )
            } else {
                Ok(
                    MbTypeRow {
                pred_type: ScalabilityPredType::Forward,
                has_mvdfw: true,
                has_mvdbw: false,
                has_cbp: false,
                has_dquant: false,
            },
                )
            }
        }
    } else {
        if bits::read_flag(reader)? {
            if bits::read_flag(reader)? {
                Ok(
                    MbTypeRow {
                pred_type: ScalabilityPredType::Backward,
                has_mvdfw: false,
                has_mvdbw: true,
                has_cbp: true,
                has_dquant: false,
            },
                )
            } else {
                Ok(
                    MbTypeRow {
                pred_type: ScalabilityPredType::Backward,
                has_mvdfw: false,
                has_mvdbw: true,
                has_cbp: false,
                has_dquant: false,
            },
                )
            }
        } else {
            if bits::read_flag(reader)? {
                if bits::read_flag(reader)? {
                    if bits::read_flag(reader)? {
                        Ok(
                            MbTypeRow {
                pred_type: ScalabilityPredType::Backward,
                has_mvdfw: false,
                has_mvdbw: true,
                has_cbp: true,
                has_dquant: true,
            },
                        )
                    } else {
                        Ok(
                            MbTypeRow {
                pred_type: ScalabilityPredType::Forward,
                has_mvdfw: true,
                has_mvdbw: false,
                has_cbp: true,
                has_dquant: true,
            },
                        )
                    }
                } else {
                    if bits::read_flag(reader)? {
                        Ok(
                            MbTypeRow {
                pred_type: ScalabilityPredType::Bidirectional,
                has_mvdfw: true,
                has_mvdbw: true,
                has_cbp: true,
                has_dquant: false,
            },
                        )
                    } else {
                        Ok(
                            MbTypeRow {
                pred_type: ScalabilityPredType::Bidirectional,
                has_mvdfw: true,
                has_mvdbw: true,
                has_cbp: false,
                has_dquant: false,
            },
                        )
                    }
                }
            } else {
                if bits::read_flag(reader)? {
                    Ok(
                        MbTypeRow {
                pred_type: ScalabilityPredType::Direct,
                has_mvdfw: false,
                has_mvdbw: false,
                has_cbp: true,
                has_dquant: true,
            },
                    )
                } else {
                    if bits::read_flag(reader)? {
                        Ok(
                            MbTypeRow {
                pred_type: ScalabilityPredType::Bidirectional,
                has_mvdfw: true,
                has_mvdbw: true,
                has_cbp: true,
                has_dquant: true,
            },
                        )
                    } else {
                        if bits::read_flag(reader)? {
                            Ok(
                                MbTypeRow {
                pred_type: ScalabilityPredType::Intra,
                has_mvdfw: false,
                has_mvdbw: false,
                has_cbp: true,
                has_dquant: false,
            },
                            )
                        } else {
                            if bits::read_flag(reader)? {
                                Ok(
                                    MbTypeRow {
                pred_type: ScalabilityPredType::Intra,
                has_mvdfw: false,
                has_mvdbw: false,
                has_cbp: true,
                has_dquant: true,
            },
                                )
                            } else {
                                Err(Error::BadScalabilityMbType)
                            }
                        }
                    }
                }
            }
        }
    }
}

/// Read an EP-picture's macroblock type.
pub fn decode_mbtype_ep(reader: &mut BitReader<'_>) -> (res: Result<MbTypeRow, Error>)
    ensures
        took(
            *old(reader),
            *final(reader),
            mbtype_ep_read(bits::stream(*old(reader)), bits::bits_read(*old(reader)) as int),
            res,
        ),
{
    proof {
        lemma_fields(bits::stream(*reader), bits::bits_read(*reader) as int);
    }
    if bits::read_flag(reader)? {
        Ok(
            MbTypeRow {
                pred_type: ScalabilityPredType::Forward,
                has_mvdfw: true,
                has_mvdbw: false,
                has_cbp: true,
                has_dquant: false,
            },
        )
    } else {
        if bits::read_flag(reader)? {
            if bits::read_flag(reader)? {
                Ok(
                    MbTypeRow {
                pred_type: ScalabilityPredType::Upward,
                has_mvdfw: false,
                has_mvdbw: false,
                has_cbp: true,
                has_dquant: false,
            },
                )
            } else {
                Ok(
                    MbTypeRow {
                pred_type: ScalabilityPredType::Upward,
                has_mvdfw: false,
                has_mvdbw: false,
                has_cbp: false,
                has_dquant: false,
            },
                )
            }
        } else {
            if bits::read_flag(reader)? {
                Ok(
                    MbTypeRow {
                pred_type: ScalabilityPredType::Forward,
                has_mvdfw: true,
                has_mvdbw: false,
                has_cbp: true,
                has_dquant: true,
            },
                )
            } else {
                if bits::read_flag(reader)? {
                    if bits::read_flag(reader)? {
                        Ok(
                            MbTypeRow {
                pred_type: ScalabilityPredType::Bidirectional,
                has_mvdfw: true,
                has_mvdbw: false,
                has_cbp: true,
                has_dquant: false,
            },
                        )
                    } else {
                        Ok(
                            MbTypeRow {
                pred_type: ScalabilityPredType::Bidirectional,
                has_mvdfw: false,
                has_mvdbw: false,
                has_cbp: false,
                has_dquant: false,
            },
                        )
                    }
                } else {
                    if bits::read_flag(reader)? {
                        Ok(
                            MbTypeRow {
                pred_type: ScalabilityPredType::Upward,
                has_mvdfw: false,
                has_mvdbw: false,
                has_cbp: true,
                has_dquant: true,
            },
                        )
                    } else {
                        if bits::read_flag(reader)? {
                            Ok(
                                MbTypeRow {
                pred_type: ScalabilityPredType::Bidirectional,
                has_mvdfw: true,
                has_mvdbw: false,
                has_cbp: true,
                has_dquant: true,
            },
                            )
                        } else {
                            if bits::read_flag(reader)? {
                                Ok(
                                    MbTypeRow {
                pred_type: ScalabilityPredType::Intra,
                has_mvdfw: false,
                has_mvdbw: false,
                has_cbp: true,
                has_dquant: false,
            },
                                )
                            } else {
                                if bits::read_flag(reader)? {
                                    Ok(
                                        MbTypeRow {
                pred_type: ScalabilityPredType::Intra,
                has_mvdfw: false,
                has_mvdbw: false,
                has_cbp: true,
                has_dquant: true,
            },
                                    )
                                } else {
                                    if bits::read_flag(reader)? {
                                        Err(Error::BadScalabilityMbType)
                                    } else {
                                        Err(Error::BadScalabilityMbType)
                                    }
                                }
                            }
                        }
                    }
                }
            }
        }
    }
}

/// Read an EI-picture's combined code.
pub fn decode_mcbpc_ei(reader: &mut BitReader<'_>) -> (res: Result<EiMcbpc, Error>)
    ensures
        took(
            *old(reader),
            *final(reader),
            mcbpc_ei_read(bits::stream(*old(reader)), bits::bits_read(*old(reader)) as int),
            res,
        ),
{
    proof {
        lemma_fields(bits::stream(*reader), bits::bits_read(*reader) as int);
    }
    if bits::read_flag(reader)? {
        Ok(
            EiMcbpc { pred_type: ScalabilityPredType::Upward, has_dquant: false, cbpc: 0 },
        )
    } else {
        if bits::read_flag(reader)? {
            if bits::read_flag(reader)? {
                Ok(
                    EiMcbpc { pred_type: ScalabilityPredType::Upward, has_dquant: false, cbpc: 3 },
                )
            } else {
                Ok(
                    EiMcbpc { pred_type: ScalabilityPredType::Upward, has_dquant: false, cbpc: 2 },
                )
            }
        } else {
            if bits::read_flag(reader)? {
                Ok(
                    EiMcbpc { pred_type: ScalabilityPredType::Upward, has_dquant: false, cbpc: 1 },
                )
            } else {
                if bits::read_flag(reader)? {
                    Ok(
                        EiMcbpc { pred_type: ScalabilityPredType::Upward, has_dquant: true, cbpc: 0 },
                    )
                } else {
                    if bits::read_flag(reader)? {
                        if bits::read_flag(reader)? {
                            if bits::read_flag(reader)? {
                                if bits::read_flag(reader)? {
                                    Ok(
                                        EiMcbpc { pred_type: ScalabilityPredType::Intra, has_dquant: true, cbpc: 3 },
                                    )
                                } else {
                                    Ok(
                                        EiMcbpc { pred_type: ScalabilityPredType::Intra, has_dquant: true, cbpc: 2 },
                                    )
                                }
                            } else {
                                if bits::read_flag(reader)? {
                                    Ok(
                                        EiMcbpc { pred_type: ScalabilityPredType::Intra, has_dquant: true, cbpc: 1 },
                                    )
                                } else {
                                    Ok(
                                        EiMcbpc { pred_type: ScalabilityPredType::Intra, has_dquant: true, cbpc: 0 },
                                    )
                                }
                            }
                        } else {
                            if bits::read_flag(reader)? {
                                if bits::read_flag(reader)? {
                                    Ok(
                                        EiMcbpc { pred_type: ScalabilityPredType::Intra, has_dquant: false, cbpc: 3 },
                                    )
                                } else {
                                    Ok(
                                        EiMcbpc { pred_type: ScalabilityPredType::Intra, has_dquant: false, cbpc: 2 },
                                    )
                                }
                            } else {
                                if bits::read_flag(reader)? {
                                    Ok(
                                        EiMcbpc { pred_type: ScalabilityPredType::Intra, has_dquant: false, cbpc: 1 },
                                    )
                                } else {
                                    Err(Error::BadScalabilityMbType)
                                }
                            }
                        }
                    } else {
                        if bits::read_flag(reader)? {
                            if bits::read_flag(reader)? {
                                Ok(
                                    EiMcbpc { pred_type: ScalabilityPredType::Upward, has_dquant: true, cbpc: 3 },
                                )
                            } else {
                                Ok(
                                    EiMcbpc { pred_type: ScalabilityPredType::Upward, has_dquant: true, cbpc: 2 },
                                )
                            }
                        } else {
                            if bits::read_flag(reader)? {
                                Ok(
                                    EiMcbpc { pred_type: ScalabilityPredType::Upward, has_dquant: true, cbpc: 1 },
                                )
                            } else {
                                if bits::read_flag(reader)? {
                                    Ok(
                                        EiMcbpc { pred_type: ScalabilityPredType::Intra, has_dquant: false, cbpc: 0 },
                                    )
                                } else {
                                    if bits::read_flag(reader)? {
                                        Err(Error::BadScalabilityMbType)
                                    } else {
                                        Err(Error::BadScalabilityMbType)
                                    }
                                }
                            }
                        }
                    }
                }
            }
        }
    }
}

/// CBPY is to be read as INTRA macroblocks count it.
pub fn cbpy_uses_intra_column(
    pic: ScalabilityPictureType,
    pred_type: ScalabilityPredType,
) -> (b: bool)
    ensures
        b == intra_column(pic, pred_type),
{
    match pred_type {
        ScalabilityPredType::Intra => true,
        ScalabilityPredType::Upward => true,
        ScalabilityPredType::Bidirectional => matches!(pic, ScalabilityPictureType::EpPicture),
        ScalabilityPredType::Forward
        | ScalabilityPredType::Backward
        | ScalabilityPredType::Direct => false,
    }
}

/// Read a macroblock header of a B-picture or EP-picture, up to and including
/// the chroma pattern.
pub fn decode_mb_header_b_ep(reader: &mut BitReader<'_>, pic: ScalabilityPictureType) -> (res: Result<
    ScalabilityMbHeader,
    Error,
>)
    requires
        pic != ScalabilityPictureType::EiPicture,
    ensures
        took(
            *old(reader),
            *final(reader),
            mb_header_b_ep_read(
                bits::stream(*old(reader)),
                bits::bits_read(*old(reader)) as int,
                pic,
            ),
            res,
        ),
{
    let is_b = matches!(pic, ScalabilityPictureType::BPicture);
    if bits::read_flag(reader)? {
        return Ok(
            ScalabilityMbHeader {
                coded: false,
                pred_type: if is_b {
                    ScalabilityPredType::Direct
                } else {
                    ScalabilityPredType::Forward
                },
                has_mvdfw: false,
                has_mvdbw: false,
                has_cbp: false,
                has_dquant: false,
                cbpc: 0,
                cbpy_uses_intra_column: false,
            },
        );
    }
    let row = if is_b {
        decode_mbtype_b(reader)?
    } else {
        decode_mbtype_ep(reader)?
    };
    let cbpc: u8 = if row.has_cbp {
        decode_cbpc(reader)?
    } else {
        0
    };
    Ok(
        ScalabilityMbHeader {
            coded: true,
            pred_type: row.pred_type,
            has_mvdfw: row.has_mvdfw,
            has_mvdbw: row.has_mvdbw,
            has_cbp: row.has_cbp,
            has_dquant: row.has_dquant,
            cbpc,
            cbpy_uses_intra_column: cbpy_uses_intra_column(pic, row.pred_type),
        },
    )
}

/// Read a macroblock header of an EI-picture, up to and including the chroma
/// pattern.
pub fn decode_mb_header_ei(reader: &mut BitReader<'_>) -> (res: Result<ScalabilityMbHeader, Error>)
    ensures
        took(
            *old(reader),
            *final(reader),
            mb_header_ei_read(bits::stream(*old(reader)), bits::bits_read(*old(reader)) as int),
            res,
        ),
{
    if bits::read_flag(reader)? {
        return Ok(
            ScalabilityMbHeader {
                coded: false,
                pred_type: ScalabilityPredType::Upward,
                has_mvdfw: false,
                has_mvdbw: false,
                has_cbp: false,
                has_dquant: false,
                cbpc: 0,
                cbpy_uses_intra_column: true,
            },
        );
    }
    let m = decode_mcbpc_ei(reader)?;
    Ok(
        ScalabilityMbHeader {
            coded: true,
            pred_type: m.pred_type,
            has_mvdfw: false,
            has_mvdbw: false,
            has_cbp: true,
            has_dquant: m.has_dquant,
            cbpc: m.cbpc,
            cbpy_uses_intra_column: cbpy_uses_intra_column(
                ScalabilityPictureType::EiPicture,
                m.pred_type,
            ),
        },
    )
}

/// Only B-pictures have backward vectors, and EI-pictures have none; INTRA
/// macroblocks never have one, and always have texture.
pub proof fn vectors_follow_the_picture_type(s: Seq<bool>, at: int)
    requires
        0 <= at,
    ensures
        mb_header_b_ep_read(s, at, ScalabilityPictureType::EpPicture) matches Ok((h, _))
            ==> !h.has_mvdbw && h.pred_type != ScalabilityPredType::Backward && h.pred_type
            != ScalabilityPredType::Direct,
        mb_header_b_ep_read(s, at, ScalabilityPictureType::BPicture) matches Ok((h, _))
            ==> h.pred_type != ScalabilityPredType::Upward && (h.pred_type
            == ScalabilityPredType::Intra ==> !h.has_mvdfw && !h.has_mvdbw && h.has_cbp),
        mb_header_ei_read(s, at) matches Ok((h, _)) ==> !h.has_mvdfw && !h.has_mvdbw && (h.pred_type
            == ScalabilityPredType::Upward || h.pred_type == ScalabilityPredType::Intra),
{
}

} // verus!
