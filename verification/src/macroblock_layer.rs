//! The macroblock layer with variable-length codes.

use crate::bits;
use crate::bits::{read_field, read_flag};
use crate::error::Error;
use crate::macroblock;
use crate::macroblock::{requantise, H263Macroblock, IntraMode, MbContext, MbType, Mvd};
use crate::motion;
use crate::pb_layer::{BpbCodingMode, ImprovedModb, ModbPresence};
use crate::picture_header::H263PictureCodingType;
use crate::vlc;
use crate::vlc::{
    read_cbpy_code, read_mcbpc_inter_code, read_mcbpc_intra_code, read_mvd_code, Code,
};
use oxideav_core::bits::BitReader;
use vstd::prelude::*;

verus! {

/// A macroblock header as far as it has been read, and the bit behind that.
pub type Step = Result<(H263Macroblock, int), Error>;

/// The type and the chroma pattern of an MCBPC entry in an INTRA picture.
pub open spec fn mcbpc_intra_entry(i: int) -> (MbType, u8) {
    if i < 4 {
        (MbType::Intra, i as u8)
    } else if i < 8 {
        (MbType::IntraQ, (i - 4) as u8)
    } else {
        (MbType::Stuffing, 0)
    }
}

/// The type and the chroma pattern of an MCBPC entry in an INTER picture.
pub open spec fn mcbpc_inter_entry(i: int) -> (MbType, u8) {
    if i < 4 {
        (MbType::Inter, i as u8)
    } else if i < 8 {
        (MbType::Intra, (i - 4) as u8)
    } else if i < 12 {
        (MbType::InterQ, (i - 8) as u8)
    } else if i < 16 {
        (MbType::IntraQ, (i - 12) as u8)
    } else if i < 20 {
        (MbType::Inter4V, (i - 16) as u8)
    } else if i == 20 {
        (MbType::Stuffing, 0)
    } else {
        (MbType::Inter4VQ, (i - 21) as u8)
    }
}

/// The picture is predicted from another.
pub open spec fn is_inter(ctx: MbContext) -> bool {
    ctx.picture_coding_type == H263PictureCodingType::Inter
}

/// MCBPC at bit `at`.
pub open spec fn mcbpc_at(s: Seq<bool>, at: int, inter: bool) -> Result<
    ((MbType, u8), int),
    Error,
> {
    match (if inter {
        vlc::mcbpc_inter_code(s, at)
    } else {
        vlc::mcbpc_intra_code(s, at)
    }) {
        Code::Entry(i, end) => Ok(
            (
                if inter {
                    mcbpc_inter_entry(i)
                } else {
                    mcbpc_intra_entry(i)
                },
                end,
            ),
        ),
        Code::Unknown => Err(Error::BadMcbpcCode),
        Code::EndOfStream => Err(Error::UnexpectedEof),
    }
}

/// CBPY at bit `at`, as the pattern of an INTRA macroblock.
pub open spec fn cbpy_at(s: Seq<bool>, at: int) -> Result<(u8, int), Error> {
    match vlc::cbpy_code(s, at) {
        Code::Entry(i, end) => Ok((i as u8, end)),
        Code::Unknown => Err(Error::BadCbpyCode),
        Code::EndOfStream => Err(Error::UnexpectedEof),
    }
}

/// One component of a vector difference at bit `at`, in half pixels: a
/// magnitude and, unless that is 0, a sign. A magnitude of 32 is always
/// negative.
pub open spec fn mvd_component_at(s: Seq<bool>, at: int) -> Result<(i8, int), Error> {
    match vlc::mvd_code(s, at) {
        Code::Entry(m, p) => if m == 0 {
            Ok((0i8, p))
        } else {
            match bits::flag_at(s, p) {
                Ok((negative, end)) => if negative {
                    Ok(((-m) as i8, end))
                } else if m == 32 {
                    Err(Error::BadMvdCode)
                } else {
                    Ok((m as i8, end))
                },
                Err(e) => Err(e),
            }
        },
        Code::Unknown => Err(Error::BadMvdCode),
        Code::EndOfStream => Err(Error::UnexpectedEof),
    }
}

/// A vector difference at bit `at`.
pub open spec fn mvd_at(s: Seq<bool>, at: int) -> Result<(Mvd, int), Error> {
    match mvd_component_at(s, at) {
        Ok((dx_half, p)) => match mvd_component_at(s, p) {
            Ok((dy_half, end)) => Ok((Mvd { dx_half, dy_half }, end)),
            Err(e) => Err(e),
        },
        Err(e) => Err(e),
    }
}

/// INTRA_MODE at bit `at`.
pub open spec fn intra_mode_at(s: Seq<bool>, at: int) -> Result<(IntraMode, int), Error> {
    match bits::flag_at(s, at) {
        Ok((first, p)) => if !first {
            Ok((IntraMode::DcOnly, p))
        } else {
            match bits::flag_at(s, p) {
                Ok((second, end)) => Ok(
                    (
                        if second {
                            IntraMode::Horizontal
                        } else {
                            IntraMode::Vertical
                        },
                        end,
                    ),
                ),
                Err(e) => Err(e),
            }
        },
        Err(e) => Err(e),
    }
}

/// MODB of a PB-frame at bit `at`.
pub open spec fn modb_at(s: Seq<bool>, at: int) -> Result<(ModbPresence, int), Error> {
    match bits::flag_at(s, at) {
        Ok((first, p)) => if !first {
            Ok((ModbPresence::Neither, p))
        } else {
            match bits::flag_at(s, p) {
                Ok((second, end)) => Ok(
                    (
                        if second {
                            ModbPresence::CbpbAndMvdb
                        } else {
                            ModbPresence::MvdbOnly
                        },
                        end,
                    ),
                ),
                Err(e) => Err(e),
            }
        },
        Err(e) => Err(e),
    }
}

/// The number of set bits at `at`, up to `most`, and the bit behind them and
/// the clear bit that ends them.
pub open spec fn ones_at(s: Seq<bool>, at: int, most: int) -> Result<(nat, int), Error>
    decreases most,
{
    if most <= 0 {
        Ok((0, at))
    } else {
        match bits::flag_at(s, at) {
            Ok((b, p)) => if !b {
                Ok((0, p))
            } else {
                match ones_at(s, p, most - 1) {
                    Ok((n, end)) => Ok((n + 1, end)),
                    Err(e) => Err(e),
                }
            },
            Err(e) => Err(e),
        }
    }
}

/// The entries of MODB of an improved PB-frame, by the number of set bits that
/// their codes start with.
pub open spec fn improved_modb_entry(ones: nat) -> ImprovedModb {
    ImprovedModb {
        mode: if ones < 2 {
            BpbCodingMode::Bidirectional
        } else if ones < 4 {
            BpbCodingMode::Forward
        } else {
            BpbCodingMode::Backward
        },
        has_cbpb: ones % 2 == 1,
    }
}

/// MODB of an improved PB-frame at bit `at`.
pub open spec fn improved_modb_at(s: Seq<bool>, at: int) -> Result<(ImprovedModb, int), Error> {
    match ones_at(s, at, 5) {
        Ok((ones, end)) => Ok((improved_modb_entry(ones), end)),
        Err(e) => Err(e),
    }
}

/// The quantiser change of a DQUANT code.
pub open spec fn dquant_entry(code: nat) -> i8 {
    if code == 0 {
        -1i8
    } else if code == 1 {
        -2i8
    } else if code == 2 {
        1
    } else {
        2
    }
}

/// The header's type.
pub open spec fn type_of(mb: H263Macroblock) -> MbType {
    mb.mb_type.unwrap_or(MbType::Stuffing)
}

/// CBPB follows MODB.
pub open spec fn sends_cbpb(mb: H263Macroblock) -> bool {
    match mb.annex_m_modb {
        Some(m) => m.has_cbpb,
        None => mb.modb == Some(ModbPresence::CbpbAndMvdb),
    }
}

/// MVDB follows the other vector differences.
pub open spec fn sends_mvdb(mb: H263Macroblock) -> bool {
    match mb.annex_m_modb {
        Some(m) => m.mode == BpbCodingMode::Forward,
        None => mb.modb matches Some(m) && m != ModbPresence::Neither,
    }
}

/// Then INTRA_MODE, where Advanced INTRA Coding is on.
pub open spec fn then_intra_mode(r: Step, s: Seq<bool>, ctx: MbContext) -> Step {
    match r {
        Ok((mb, p)) => if ctx.aic_intra_mode && type_of(mb).intra() {
            match intra_mode_at(s, p) {
                Ok((m, end)) => Ok((H263Macroblock { intra_mode: Some(m), ..mb }, end)),
                Err(e) => Err(e),
            }
        } else {
            r
        },
        Err(e) => r,
    }
}

/// Then MODB, in a PB-frame.
pub open spec fn then_modb(r: Step, s: Seq<bool>, ctx: MbContext) -> Step {
    match r {
        Ok((mb, p)) => if !ctx.pb_frames {
            r
        } else if ctx.pb_annex_m {
            match improved_modb_at(s, p) {
                Ok((m, end)) => Ok((H263Macroblock { annex_m_modb: Some(m), ..mb }, end)),
                Err(e) => Err(e),
            }
        } else {
            match modb_at(s, p) {
                Ok((m, end)) => Ok((H263Macroblock { modb: Some(m), ..mb }, end)),
                Err(e) => Err(e),
            }
        },
        Err(e) => r,
    }
}

/// Then CBPB, where MODB announces it.
pub open spec fn then_cbpb(r: Step, s: Seq<bool>) -> Step {
    match r {
        Ok((mb, p)) => if sends_cbpb(mb) {
            match bits::field_at(s, p, 6) {
                Ok((v, end)) => Ok((H263Macroblock { cbpb: Some(v as u8), ..mb }, end)),
                Err(e) => Err(e),
            }
        } else {
            r
        },
        Err(e) => r,
    }
}

/// Then CBPY.
pub open spec fn then_cbpy(r: Step, s: Seq<bool>) -> Step {
    match r {
        Ok((mb, p)) => match cbpy_at(s, p) {
            Ok((v, end)) => Ok((H263Macroblock { cbpy: Some(v), ..mb }, end)),
            Err(e) => Err(e),
        },
        Err(e) => r,
    }
}

/// Then DQUANT, where the type has it.
pub open spec fn then_dquant(r: Step, s: Seq<bool>, ctx: MbContext) -> Step {
    match r {
        Ok((mb, p)) => if type_of(mb).requantises() {
            match bits::field_at(s, p, 2) {
                Ok((v, end)) => Ok(
                    (
                        H263Macroblock {
                            dquant: Some(dquant_entry(v)),
                            quantiser_after: macroblock::requantised(
                                ctx.quantiser_before as int,
                                dquant_entry(v) as int,
                            ) as u8,
                            ..mb
                        },
                        end,
                    ),
                ),
                Err(e) => Err(e),
            }
        } else {
            r
        },
        Err(e) => r,
    }
}

/// Then a vector difference, where the type has one; in a PB-frame INTRA
/// macroblocks have one too.
pub open spec fn then_mvd(r: Step, s: Seq<bool>, ctx: MbContext) -> Step {
    match r {
        Ok((mb, p)) => if type_of(mb).inter() || ctx.pb_frames && type_of(mb).intra() {
            match mvd_at(s, p) {
                Ok((v, end)) => Ok((H263Macroblock { mvd: Some(v), ..mb }, end)),
                Err(e) => Err(e),
            }
        } else {
            r
        },
        Err(e) => r,
    }
}

/// Three more vector differences follow.
pub open spec fn sends_four(mb: H263Macroblock, ctx: MbContext) -> bool {
    type_of(mb).four_vectors() && (ctx.advanced_prediction || ctx.deblocking_filter)
}

/// Then the vector differences of the three other luma blocks.
pub open spec fn then_mvd2_4(r: Step, s: Seq<bool>, ctx: MbContext) -> Step {
    match r {
        Ok((mb, p)) => if sends_four(mb, ctx) {
            match mvd_at(s, p) {
                Ok((v2, p2)) => match mvd_at(s, p2) {
                    Ok((v3, p3)) => match mvd_at(s, p3) {
                        Ok((v4, end)) => Ok(
                            (
                                H263Macroblock {
                                    mvd2: Some(v2),
                                    mvd3: Some(v3),
                                    mvd4: Some(v4),
                                    ..mb
                                },
                                end,
                            ),
                        ),
                        Err(e) => Err(e),
                    },
                    Err(e) => Err(e),
                },
                Err(e) => Err(e),
            }
        } else {
            r
        },
        Err(e) => r,
    }
}

/// Then the B-picture's vector difference, where MODB announces it.
pub open spec fn then_mvdb(r: Step, s: Seq<bool>) -> Step {
    match r {
        Ok((mb, p)) => if sends_mvdb(mb) {
            match mvd_at(s, p) {
                Ok((v, end)) => Ok((H263Macroblock { mvdb: Some(v), ..mb }, end)),
                Err(e) => Err(e),
            }
        } else {
            r
        },
        Err(e) => r,
    }
}

/// From INTRA_MODE to CBPY.
pub open spec fn patterns_at(
    mb: H263Macroblock,
    s: Seq<bool>,
    at: int,
    ctx: MbContext,
) -> Step {
    then_cbpy(then_cbpb(then_modb(then_intra_mode(Ok((mb, at)), s, ctx), s, ctx), s), s)
}

/// From DQUANT to the end.
pub open spec fn vectors_at(r: Step, s: Seq<bool>, ctx: MbContext) -> Step {
    then_mvdb(then_mvd2_4(then_mvd(then_dquant(r, s, ctx), s, ctx), s, ctx), s)
}

/// The header of a coded macroblock, from MCBPC at bit `at` on.
pub open spec fn coded_macroblock_at(s: Seq<bool>, at: int, ctx: MbContext) -> Step {
    match mcbpc_at(s, at, is_inter(ctx)) {
        Ok(((t, cbpc), p)) => {
            let mb = H263Macroblock {
                mb_type: Some(t),
                ..macroblock::bare_macroblock(true, ctx.quantiser_before)
            };
            if t == MbType::Stuffing {
                Ok((mb, p))
            } else {
                vectors_at(
                    patterns_at(H263Macroblock { cbpc: Some(cbpc), ..mb }, s, p, ctx),
                    s,
                    ctx,
                )
            }
        },
        Err(e) => Err(e),
    }
}

/// The macroblock header at bit `at`.
#[verifier::opaque]
pub open spec fn macroblock_at(s: Seq<bool>, at: int, ctx: MbContext) -> Step {
    if ctx.quantiser_before == 0 || ctx.quantiser_before > 31 {
        Err(Error::InvalidQuantiser)
    } else if !is_inter(ctx) {
        coded_macroblock_at(s, at, ctx)
    } else {
        match bits::flag_at(s, at) {
            Ok((skipped, p)) => if skipped {
                Ok((macroblock::bare_macroblock(false, ctx.quantiser_before), p))
            } else {
                coded_macroblock_at(s, p, ctx)
            },
            Err(e) => Err(e),
        }
    }
}

/// Read MCBPC.
fn decode_mcbpc(r: &mut BitReader<'_>, inter: bool) -> (res: Result<(MbType, u8), Error>)
    ensures
        bits::read_as(
            mcbpc_at(bits::stream(*old(r)), bits::bits_read(*old(r)) as int, inter),
            res,
            *old(r),
            *final(r),
        ),
        res matches Ok((t, c)) ==> c < 4,
{
    if inter {
        let e: Option<usize> = read_mcbpc_inter_code(r)?;
        match e {
            None => Err(Error::BadMcbpcCode),
            Some(i) => {
                let entry: (MbType, u8) = if i < 4 {
                    (MbType::Inter, i as u8)
                } else if i < 8 {
                    (MbType::Intra, (i - 4) as u8)
                } else if i < 12 {
                    (MbType::InterQ, (i - 8) as u8)
                } else if i < 16 {
                    (MbType::IntraQ, (i - 12) as u8)
                } else if i < 20 {
                    (MbType::Inter4V, (i - 16) as u8)
                } else if i == 20 {
                    (MbType::Stuffing, 0)
                } else {
                    (MbType::Inter4VQ, (i - 21) as u8)
                };
                Ok(entry)
            },
        }
    } else {
        let e: Option<usize> = read_mcbpc_intra_code(r)?;
        match e {
            None => Err(Error::BadMcbpcCode),
            Some(i) => {
                let entry: (MbType, u8) = if i < 4 {
                    (MbType::Intra, i as u8)
                } else if i < 8 {
                    (MbType::IntraQ, (i - 4) as u8)
                } else {
                    (MbType::Stuffing, 0)
                };
                Ok(entry)
            },
        }
    }
}

/// Read CBPY.
fn decode_cbpy(r: &mut BitReader<'_>) -> (res: Result<u8, Error>)
    ensures
        bits::read_as(
            cbpy_at(bits::stream(*old(r)), bits::bits_read(*old(r)) as int),
            res,
            *old(r),
            *final(r),
        ),
        res matches Ok(v) ==> v < 16,
{
    let e: Option<usize> = read_cbpy_code(r)?;
    match e {
        None => Err(Error::BadCbpyCode),
        Some(i) => Ok(i as u8),
    }
}

/// Read one component of a vector difference.
fn decode_mvd_component(r: &mut BitReader<'_>) -> (res: Result<i8, Error>)
    ensures
        bits::read_as(
            mvd_component_at(bits::stream(*old(r)), bits::bits_read(*old(r)) as int),
            res,
            *old(r),
            *final(r),
        ),
        res matches Ok(v) ==> -32 <= v <= 31,
{
    let e: Option<usize> = read_mvd_code(r)?;
    match e {
        None => Err(Error::BadMvdCode),
        Some(m) => {
            if m == 0 {
                return Ok(0);
            }
            if read_flag(r)? {
                Ok(-(m as i8))
            } else if m == 32 {
                Err(Error::BadMvdCode)
            } else {
                Ok(m as i8)
            }
        },
    }
}

/// Read a vector difference.
fn decode_mvd(r: &mut BitReader<'_>) -> (res: Result<Mvd, Error>)
    ensures
        bits::read_as(
            mvd_at(bits::stream(*old(r)), bits::bits_read(*old(r)) as int),
            res,
            *old(r),
            *final(r),
        ),
        res matches Ok(v) ==> motion::mvd_in_range(v),
{
    let dx_half: i8 = decode_mvd_component(r)?;
    let dy_half: i8 = decode_mvd_component(r)?;
    Ok(Mvd { dx_half, dy_half })
}

/// Read INTRA_MODE.
fn decode_intra_mode(r: &mut BitReader<'_>) -> (res: Result<IntraMode, Error>)
    ensures
        bits::read_as(
            intra_mode_at(bits::stream(*old(r)), bits::bits_read(*old(r)) as int),
            res,
            *old(r),
            *final(r),
        ),
{
    if !read_flag(r)? {
        return Ok(IntraMode::DcOnly);
    }
    if read_flag(r)? {
        Ok(IntraMode::Horizontal)
    } else {
        Ok(IntraMode::Vertical)
    }
}

/// Read MODB of a PB-frame.
fn decode_modb(r: &mut BitReader<'_>) -> (res: Result<ModbPresence, Error>)
    ensures
        bits::read_as(
            modb_at(bits::stream(*old(r)), bits::bits_read(*old(r)) as int),
            res,
            *old(r),
            *final(r),
        ),
{
    if !read_flag(r)? {
        return Ok(ModbPresence::Neither);
    }
    if read_flag(r)? {
        Ok(ModbPresence::CbpbAndMvdb)
    } else {
        Ok(ModbPresence::MvdbOnly)
    }
}

/// Read MODB of an improved PB-frame.
fn decode_improved_modb(r: &mut BitReader<'_>) -> (res: Result<ImprovedModb, Error>)
    ensures
        bits::read_as(
            improved_modb_at(bits::stream(*old(r)), bits::bits_read(*old(r)) as int),
            res,
            *old(r),
            *final(r),
        ),
{
    proof {
        reveal_with_fuel(ones_at, 6);
    }
    let mut ones: u8 = 5;
    if !read_flag(r)? {
        ones = 0;
    } else if !read_flag(r)? {
        ones = 1;
    } else if !read_flag(r)? {
        ones = 2;
    } else if !read_flag(r)? {
        ones = 3;
    } else if !read_flag(r)? {
        ones = 4;
    }
    let mode: BpbCodingMode = if ones < 2 {
        BpbCodingMode::Bidirectional
    } else if ones < 4 {
        BpbCodingMode::Forward
    } else {
        BpbCodingMode::Backward
    };
    Ok(ImprovedModb { mode, has_cbpb: ones % 2 == 1 })
}

/// The vector differences of a header that has been read are within range.
pub open spec fn differences_in_range(mb: H263Macroblock) -> bool {
    &&& mb.mvd matches Some(v) ==> motion::mvd_in_range(v)
    &&& mb.mvd2 matches Some(v) ==> motion::mvd_in_range(v)
    &&& mb.mvd3 matches Some(v) ==> motion::mvd_in_range(v)
    &&& mb.mvd4 matches Some(v) ==> motion::mvd_in_range(v)
    &&& mb.mvdb matches Some(v) ==> motion::mvd_in_range(v)
}

/// Read from INTRA_MODE to CBPY.
#[verifier::spinoff_prover]
fn parse_patterns(r: &mut BitReader<'_>, start: H263Macroblock, ctx: MbContext) -> (res: Result<
    H263Macroblock,
    Error,
>)
    requires
        start.mb_type is Some,
        differences_in_range(start),
        start.modb is None,
        start.annex_m_modb is None,
    ensures
        bits::read_as(
            patterns_at(start, bits::stream(*old(r)), bits::bits_read(*old(r)) as int, ctx),
            res,
            *old(r),
            *final(r),
        ),
        res matches Ok(mb) ==> mb.mb_type == start.mb_type && mb.quantiser_after
            == start.quantiser_after && differences_in_range(mb),
{
    let mut mb: H263Macroblock = start;
    let intra: bool = match mb.mb_type {
        Some(t) => t.is_intra(),
        None => false,
    };
    if ctx.aic_intra_mode && intra {
        mb.intra_mode = Some(decode_intra_mode(r)?);
    }
    let mut has_cbpb: bool = false;
    if ctx.pb_frames {
        if ctx.pb_annex_m {
            let m: ImprovedModb = decode_improved_modb(r)?;
            mb.annex_m_modb = Some(m);
            has_cbpb = m.has_cbpb;
        } else {
            let m: ModbPresence = decode_modb(r)?;
            mb.modb = Some(m);
            has_cbpb = m.has_cbpb();
        }
    }
    assert(has_cbpb == sends_cbpb(mb));
    if has_cbpb {
        let v: u32 = read_field(r, 6)?;
        proof {
            vstd::arithmetic::power2::lemma2_to64();
        }
        mb.cbpb = Some(v as u8);
    }
    mb.cbpy = Some(decode_cbpy(r)?);
    Ok(mb)
}

/// Read from DQUANT to the end.
#[verifier::spinoff_prover]
fn parse_vectors(r: &mut BitReader<'_>, start: H263Macroblock, ctx: MbContext) -> (res: Result<
    H263Macroblock,
    Error,
>)
    requires
        start.mb_type is Some,
        1 <= start.quantiser_after <= 31,
        differences_in_range(start),
    ensures
        bits::read_as(
            vectors_at(
                Ok((start, bits::bits_read(*old(r)) as int)),
                bits::stream(*old(r)),
                ctx,
            ),
            res,
            *old(r),
            *final(r),
        ),
        res matches Ok(mb) ==> differences_in_range(mb) && 1 <= mb.quantiser_after <= 31,
{
    let mut mb: H263Macroblock = start;
    let mb_type: MbType = match mb.mb_type {
        Some(t) => t,
        None => MbType::Stuffing,
    };
    if mb_type.has_dquant() {
        let v: u32 = read_field(r, 2)?;
        let diff: i8 = match v {
            0 => -1,
            1 => -2,
            2 => 1,
            _ => 2,
        };
        mb.dquant = Some(diff);
        mb.quantiser_after = requantise(ctx.quantiser_before, diff);
    }
    if mb_type.has_mvd() || (ctx.pb_frames && mb_type.is_intra()) {
        mb.mvd = Some(decode_mvd(r)?);
    }
    if mb_type.has_mvd2_4(ctx.advanced_prediction, ctx.deblocking_filter) {
        let v2: Mvd = decode_mvd(r)?;
        let v3: Mvd = decode_mvd(r)?;
        let v4: Mvd = decode_mvd(r)?;
        mb.mvd2 = Some(v2);
        mb.mvd3 = Some(v3);
        mb.mvd4 = Some(v4);
    }
    let has_mvdb: bool = match mb.annex_m_modb {
        Some(m) => m.has_mvdb(),
        None => match mb.modb {
            Some(m) => m.has_mvdb(),
            None => false,
        },
    };
    if has_mvdb {
        mb.mvdb = Some(decode_mvd(r)?);
    }
    Ok(mb)
}

/// Read a macroblock header.
#[verifier::spinoff_prover]
pub fn parse_macroblock(r: &mut BitReader<'_>, ctx: MbContext) -> (res: Result<
    H263Macroblock,
    Error,
>)
    ensures
        bits::read_as(
            macroblock_at(bits::stream(*old(r)), bits::bits_read(*old(r)) as int, ctx),
            res,
            *old(r),
            *final(r),
        ),
        res matches Ok(mb) ==> differences_in_range(mb) && 1 <= mb.quantiser_after <= 31,
{
    proof {
        reveal(macroblock_at);
    }
    let q: u8 = ctx.quantiser_before;
    if q == 0 || q > 31 {
        return Err(Error::InvalidQuantiser);
    }
    let inter: bool = matches!(ctx.picture_coding_type, H263PictureCodingType::Inter);
    if inter {
        if read_flag(r)? {
            return Ok(H263Macroblock::bare(false, q));
        }
    }
    let mut mb: H263Macroblock = H263Macroblock::bare(true, q);
    let (mb_type, cbpc): (MbType, u8) = decode_mcbpc(r, inter)?;
    mb.mb_type = Some(mb_type);
    if matches!(mb_type, MbType::Stuffing) {
        return Ok(mb);
    }
    mb.cbpc = Some(cbpc);
    let head: H263Macroblock = parse_patterns(r, mb, ctx)?;
    parse_vectors(r, head, ctx)
}

} // verus!
