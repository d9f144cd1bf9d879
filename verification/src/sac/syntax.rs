//! Syntax elements as arithmetic-coded symbols.
//!
//! An encoder turns a syntax element into a string of symbols; a decoder reads
//! symbols under the same models and turns them back. The laws at the end of
//! each section say that the second undoes the first.

use crate::bits;
use crate::error::Error;
use crate::macroblock::MbType;
use crate::pb_layer::ModbPresence;
use crate::sac::coder;
use crate::sac::coder::{Decoding, SacDecoder, SacEncoder, Symbol};
use crate::sac::inverse;
use crate::sac::models;
use vstd::arithmetic::power2::pow2;
use vstd::prelude::*;

verus! {

/// The string of one symbol.
pub open spec fn one(model: Seq<i64>, index: int) -> Seq<Symbol> {
    seq![Symbol { model, index }]
}

/// Write one symbol.
pub(crate) fn put_symbol(enc: &mut SacEncoder<'_>, index: usize, cumf: &[i64])
    requires
        old(enc).wf(),
        old(enc).has_room(1),
        coder::is_model(cumf@),
        index + 1 < cumf@.len(),
    ensures
        final(enc)@ == coder::encoded_all(old(enc)@, one(cumf@, index as int)),
        final(enc).wf(),
        final(enc).opposite_bits <= old(enc).opposite_bits + 16,
        *final(final(enc).writer) == *final(old(enc).writer),
{
    proof {
        inverse::lemma_encoded_one(enc@, Symbol { model: cumf@, index: index as int });
    }
    enc.encode_symbol(index, cumf);
}

// ---- COD ----

/// The symbols of a COD flag.
pub open spec fn cod_script(coded: bool) -> Seq<Symbol> {
    one(
        models::cod(),
        if coded {
            0
        } else {
            1
        },
    )
}

/// Read whether a macroblock is coded.
pub fn decode_cod(dec: &mut SacDecoder<'_, '_>) -> (coded: bool)
    requires
        old(dec).wf(),
    ensures
        coded == (coder::next_symbol(old(dec)@, models::cod()) == 0),
        final(dec)@ == coder::after(old(dec)@, models::cod()),
        final(dec).wf(),
        *final(final(dec).reader) == *final(old(dec).reader),
        bits::drained(*old(dec).reader, *final(dec).reader),
{
    proof {
        models::lemma_cod();
    }
    dec.decode_symbol(models::cod_model()) == 0
}

/// Write whether a macroblock is coded.
pub fn encode_cod(enc: &mut SacEncoder<'_>, coded: bool)
    requires
        old(enc).wf(),
        old(enc).has_room(1),
    ensures
        final(enc)@ == coder::encoded_all(old(enc)@, cod_script(coded)),
        final(enc).wf(),
        final(enc).opposite_bits <= old(enc).opposite_bits + 16,
        *final(final(enc).writer) == *final(old(enc).writer),
{
    proof {
        models::lemma_cod();
    }
    put_symbol(
        enc,
        if coded {
            0
        } else {
            1
        },
        models::cod_model(),
    );
}

/// Reading a COD flag undoes writing it.
pub proof fn cod_round_trips(d: Decoding, coded: bool)
    requires
        coder::reads(d, cod_script(coded)),
    ensures
        (coder::next_symbol(d, models::cod()) == 0) == coded,
        coder::after(d, models::cod()) == coder::after_all(d, cod_script(coded)),
{
    inverse::lemma_reads_one(d, cod_script(coded)[0]);
}

// ---- MCBPC ----

/// Macroblock type and chroma pattern of an I-picture MCBPC symbol.
pub open spec fn mcbpc_i(index: int) -> (MbType, u8) {
    if index < 4 {
        (MbType::Intra, index as u8)
    } else if index < 8 {
        (MbType::IntraQ, (index - 4) as u8)
    } else {
        (MbType::Stuffing, 0)
    }
}

/// I-picture MCBPC symbol of a macroblock type and chroma pattern, where the
/// type has one.
pub open spec fn mcbpc_i_index(mb_type: MbType, cbpc: u8) -> Option<int> {
    match mb_type {
        MbType::Intra => Some(cbpc as int),
        MbType::IntraQ => Some(4 + cbpc),
        MbType::Stuffing => Some(8),
        _ => None,
    }
}

/// Macroblock type and chroma pattern of a P-picture MCBPC symbol.
pub open spec fn mcbpc_p(index: int) -> (MbType, u8) {
    if index < 4 {
        (MbType::Inter, index as u8)
    } else if index < 8 {
        (MbType::InterQ, (index - 4) as u8)
    } else if index < 12 {
        (MbType::Inter4V, (index - 8) as u8)
    } else if index < 16 {
        (MbType::Intra, (index - 12) as u8)
    } else if index < 20 {
        (MbType::IntraQ, (index - 16) as u8)
    } else {
        (MbType::Stuffing, 0)
    }
}

/// P-picture MCBPC symbol of a macroblock type and chroma pattern, where the
/// type has one.
pub open spec fn mcbpc_p_index(mb_type: MbType, cbpc: u8) -> Option<int> {
    match mb_type {
        MbType::Inter => Some(cbpc as int),
        MbType::InterQ => Some(4 + cbpc),
        MbType::Inter4V => Some(8 + cbpc),
        MbType::Intra => Some(12 + cbpc),
        MbType::IntraQ => Some(16 + cbpc),
        MbType::Stuffing => Some(20),
        MbType::Inter4VQ => None,
    }
}

fn mcbpc_i_from_index(index: usize) -> (res: Result<(MbType, u8), Error>)
    ensures
        res == (if index <= 8 {
            Ok(mcbpc_i(index as int))
        } else {
            Err(Error::BadMcbpcCode)
        }),
{
    match index {
        0..=3 => Ok((MbType::Intra, (index % 4) as u8)),
        4..=7 => Ok((MbType::IntraQ, (index % 4) as u8)),
        8 => Ok((MbType::Stuffing, 0)),
        _ => Err(Error::BadMcbpcCode),
    }
}

fn mcbpc_i_to_index(mb_type: MbType, cbpc: u8) -> (res: Result<usize, Error>)
    ensures
        match mcbpc_i_index(mb_type, cbpc) {
            Some(i) => res matches Ok(index) && index == i,
            None => res == Err::<usize, Error>(Error::BadMcbpcCode),
        },
{
    match mb_type {
        MbType::Intra => Ok(cbpc as usize),
        MbType::IntraQ => Ok(4 + cbpc as usize),
        MbType::Stuffing => Ok(8),
        _ => Err(Error::BadMcbpcCode),
    }
}

fn mcbpc_p_from_index(index: usize) -> (res: Result<(MbType, u8), Error>)
    ensures
        res == (if index <= 20 {
            Ok(mcbpc_p(index as int))
        } else {
            Err(Error::BadMcbpcCode)
        }),
{
    let mb_type = match index {
        0..=3 => MbType::Inter,
        4..=7 => MbType::InterQ,
        8..=11 => MbType::Inter4V,
        12..=15 => MbType::Intra,
        16..=19 => MbType::IntraQ,
        20 => return Ok((MbType::Stuffing, 0)),
        _ => return Err(Error::BadMcbpcCode),
    };
    Ok((mb_type, (index % 4) as u8))
}

fn mcbpc_p_to_index(mb_type: MbType, cbpc: u8) -> (res: Result<usize, Error>)
    ensures
        match mcbpc_p_index(mb_type, cbpc) {
            Some(i) => res matches Ok(index) && index == i,
            None => res == Err::<usize, Error>(Error::BadMcbpcCode),
        },
{
    let base: usize = match mb_type {
        MbType::Inter => 0,
        MbType::InterQ => 4,
        MbType::Inter4V => 8,
        MbType::Intra => 12,
        MbType::IntraQ => 16,
        MbType::Stuffing => return Ok(20),
        MbType::Inter4VQ => return Err(Error::BadMcbpcCode),
    };
    Ok(base + cbpc as usize)
}

/// Read an I-picture MCBPC.
pub fn decode_mcbpc_i_sac(dec: &mut SacDecoder<'_, '_>) -> (res: Result<(MbType, u8), Error>)
    requires
        old(dec).wf(),
    ensures
        res == Ok::<(MbType, u8), Error>(
            mcbpc_i(coder::next_symbol(old(dec)@, models::mcbpc_intra())),
        ),
        final(dec)@ == coder::after(old(dec)@, models::mcbpc_intra()),
        final(dec).wf(),
        *final(final(dec).reader) == *final(old(dec).reader),
        bits::drained(*old(dec).reader, *final(dec).reader),
{
    proof {
        models::lemma_mcbpc_intra();
    }
    mcbpc_i_from_index(dec.decode_symbol(models::mcbpc_intra_model()))
}

/// Write an I-picture MCBPC.
pub fn encode_mcbpc_i_sac(enc: &mut SacEncoder<'_>, mb_type: MbType, cbpc: u8) -> (res: Result<
    (),
    Error,
>)
    requires
        old(enc).wf(),
        old(enc).has_room(1),
        mcbpc_i_index(mb_type, cbpc) matches Some(i) ==> i <= 8,
    ensures
        match mcbpc_i_index(mb_type, cbpc) {
            Some(i) => res is Ok && final(enc)@ == coder::encoded_all(
                old(enc)@,
                one(models::mcbpc_intra(), i),
            ),
            None => res == Err::<(), Error>(Error::BadMcbpcCode) && final(enc)@ == old(enc)@,
        },
        final(enc).wf(),
        final(enc).opposite_bits <= old(enc).opposite_bits + 16,
        *final(final(enc).writer) == *final(old(enc).writer),
{
    proof {
        models::lemma_mcbpc_intra();
    }
    let index = mcbpc_i_to_index(mb_type, cbpc)?;
    put_symbol(enc, index, models::mcbpc_intra_model());
    Ok(())
}

/// Read a P-picture MCBPC.
pub fn decode_mcbpc_p_sac(dec: &mut SacDecoder<'_, '_>) -> (res: Result<(MbType, u8), Error>)
    requires
        old(dec).wf(),
    ensures
        res == Ok::<(MbType, u8), Error>(
            mcbpc_p(coder::next_symbol(old(dec)@, models::mcbpc_no4mvq())),
        ),
        final(dec)@ == coder::after(old(dec)@, models::mcbpc_no4mvq()),
        final(dec).wf(),
        *final(final(dec).reader) == *final(old(dec).reader),
        bits::drained(*old(dec).reader, *final(dec).reader),
{
    proof {
        models::lemma_mcbpc_no4mvq();
    }
    mcbpc_p_from_index(dec.decode_symbol(models::mcbpc_no4mvq_model()))
}

/// Write a P-picture MCBPC.
pub fn encode_mcbpc_p_sac(enc: &mut SacEncoder<'_>, mb_type: MbType, cbpc: u8) -> (res: Result<
    (),
    Error,
>)
    requires
        old(enc).wf(),
        old(enc).has_room(1),
        mcbpc_p_index(mb_type, cbpc) matches Some(i) ==> i <= 20,
    ensures
        match mcbpc_p_index(mb_type, cbpc) {
            Some(i) => res is Ok && final(enc)@ == coder::encoded_all(
                old(enc)@,
                one(models::mcbpc_no4mvq(), i),
            ),
            None => res == Err::<(), Error>(Error::BadMcbpcCode) && final(enc)@ == old(enc)@,
        },
        final(enc).wf(),
        final(enc).opposite_bits <= old(enc).opposite_bits + 16,
        *final(final(enc).writer) == *final(old(enc).writer),
{
    proof {
        models::lemma_mcbpc_no4mvq();
    }
    let index = mcbpc_p_to_index(mb_type, cbpc)?;
    put_symbol(enc, index, models::mcbpc_no4mvq_model());
    Ok(())
}

/// Reading an MCBPC undoes writing it, in I-pictures and in P-pictures, for
/// every type that the picture has and every two-bit pattern. Stuffing has the
/// empty pattern.
pub proof fn mcbpc_round_trips(d: Decoding, mb_type: MbType, cbpc: u8)
    requires
        cbpc < 4,
        mb_type == MbType::Stuffing ==> cbpc == 0,
    ensures
        mcbpc_i_index(mb_type, cbpc) matches Some(i) ==> i <= 8 && (coder::reads(
            d,
            one(models::mcbpc_intra(), i),
        ) ==> mcbpc_i(coder::next_symbol(d, models::mcbpc_intra())) == (mb_type, cbpc)),
        mcbpc_p_index(mb_type, cbpc) matches Some(i) ==> i <= 20 && (coder::reads(
            d,
            one(models::mcbpc_no4mvq(), i),
        ) ==> mcbpc_p(coder::next_symbol(d, models::mcbpc_no4mvq())) == (mb_type, cbpc)),
{
    if let Some(i) = mcbpc_i_index(mb_type, cbpc) {
        inverse::lemma_reads_one(d, Symbol { model: models::mcbpc_intra(), index: i });
    }
    if let Some(i) = mcbpc_p_index(mb_type, cbpc) {
        inverse::lemma_reads_one(d, Symbol { model: models::mcbpc_no4mvq(), index: i });
    }
}

// ---- CBPY ----

/// The model of CBPY.
pub open spec fn cbpy_model(mb_is_intra: bool) -> Seq<i64> {
    if mb_is_intra {
        models::cbpy_intra()
    } else {
        models::cbpy()
    }
}

/// Read a CBPY, as INTRA macroblocks count it.
pub fn decode_cbpy_sac(dec: &mut SacDecoder<'_, '_>, mb_is_intra: bool) -> (cbpy: u8)
    requires
        old(dec).wf(),
    ensures
        cbpy == coder::next_symbol(old(dec)@, cbpy_model(mb_is_intra)),
        cbpy < 16,
        final(dec)@ == coder::after(old(dec)@, cbpy_model(mb_is_intra)),
        final(dec).wf(),
        *final(final(dec).reader) == *final(old(dec).reader),
        bits::drained(*old(dec).reader, *final(dec).reader),
{
    proof {
        models::lemma_cbpy();
        models::lemma_cbpy_intra();
    }
    if mb_is_intra {
        dec.decode_symbol(models::cbpy_intra_model()) as u8
    } else {
        dec.decode_symbol(models::cbpy_model()) as u8
    }
}

/// Write a CBPY, as INTRA macroblocks count it.
pub fn encode_cbpy_sac(enc: &mut SacEncoder<'_>, cbpy: u8, mb_is_intra: bool) -> (res: Result<
    (),
    Error,
>)
    requires
        old(enc).wf(),
        old(enc).has_room(1),
    ensures
        if cbpy < 16 {
            res is Ok && final(enc)@ == coder::encoded_all(
                old(enc)@,
                one(cbpy_model(mb_is_intra), cbpy as int),
            )
        } else {
            res == Err::<(), Error>(Error::BadCbpyCode) && final(enc)@ == old(enc)@
        },
        final(enc).wf(),
        final(enc).opposite_bits <= old(enc).opposite_bits + 16,
        *final(final(enc).writer) == *final(old(enc).writer),
{
    if cbpy > 0b1111 {
        return Err(Error::BadCbpyCode);
    }
    proof {
        models::lemma_cbpy();
        models::lemma_cbpy_intra();
    }
    if mb_is_intra {
        put_symbol(enc, cbpy as usize, models::cbpy_intra_model());
    } else {
        put_symbol(enc, cbpy as usize, models::cbpy_model());
    }
    Ok(())
}

/// Reading a CBPY undoes writing it.
pub proof fn cbpy_round_trips(d: Decoding, cbpy: u8, mb_is_intra: bool)
    requires
        cbpy < 16,
        coder::reads(d, one(cbpy_model(mb_is_intra), cbpy as int)),
    ensures
        coder::next_symbol(d, cbpy_model(mb_is_intra)) == cbpy,
{
    inverse::lemma_reads_one(d, Symbol { model: cbpy_model(mb_is_intra), index: cbpy as int });
}

// ---- DQUANT ----

/// The differential of a DQUANT symbol.
pub open spec fn dquant_of(index: int) -> int {
    if index == 0 {
        -1
    } else if index == 1 {
        -2
    } else if index == 2 {
        1
    } else {
        2
    }
}

/// The symbol of a DQUANT differential.
pub open spec fn dquant_index(diff: int) -> int {
    if diff == -1 {
        0
    } else if diff == -2 {
        1
    } else if diff == 1 {
        2
    } else {
        3
    }
}

/// DQUANT can express the differential.
pub open spec fn is_dquant(diff: int) -> bool {
    diff == -2 || diff == -1 || diff == 1 || diff == 2
}

/// Read a DQUANT differential.
pub fn decode_dquant_sac(dec: &mut SacDecoder<'_, '_>) -> (diff: i8)
    requires
        old(dec).wf(),
    ensures
        diff == dquant_of(coder::next_symbol(old(dec)@, models::dquant())),
        final(dec)@ == coder::after(old(dec)@, models::dquant()),
        final(dec).wf(),
        *final(final(dec).reader) == *final(old(dec).reader),
        bits::drained(*old(dec).reader, *final(dec).reader),
{
    proof {
        models::lemma_dquant();
    }
    match dec.decode_symbol(models::dquant_model()) {
        0 => -1,
        1 => -2,
        2 => 1,
        _ => 2,
    }
}

/// Write a DQUANT differential.
pub fn encode_dquant_sac(enc: &mut SacEncoder<'_>, diff: i8) -> (res: Result<(), Error>)
    requires
        old(enc).wf(),
        old(enc).has_room(1),
    ensures
        if is_dquant(diff as int) {
            res is Ok && final(enc)@ == coder::encoded_all(
                old(enc)@,
                one(models::dquant(), dquant_index(diff as int)),
            )
        } else {
            res == Err::<(), Error>(Error::BadDquant) && final(enc)@ == old(enc)@
        },
        final(enc).wf(),
        final(enc).opposite_bits <= old(enc).opposite_bits + 16,
        *final(final(enc).writer) == *final(old(enc).writer),
{
    let index: usize = if diff == -1 {
        0
    } else if diff == -2 {
        1
    } else if diff == 1 {
        2
    } else if diff == 2 {
        3
    } else {
        return Err(Error::BadDquant);
    };
    proof {
        models::lemma_dquant();
    }
    put_symbol(enc, index, models::dquant_model());
    Ok(())
}

/// Reading a DQUANT undoes writing it.
pub proof fn dquant_round_trips(d: Decoding, diff: int)
    requires
        is_dquant(diff),
        coder::reads(d, one(models::dquant(), dquant_index(diff))),
    ensures
        dquant_of(coder::next_symbol(d, models::dquant())) == diff,
{
    inverse::lemma_reads_one(d, Symbol { model: models::dquant(), index: dquant_index(diff) });
}

// ---- MODB ----

/// The fields that a MODB symbol announces.
pub open spec fn modb_of(index: int) -> ModbPresence {
    if index == 0 {
        ModbPresence::Neither
    } else if index == 1 {
        ModbPresence::MvdbOnly
    } else {
        ModbPresence::CbpbAndMvdb
    }
}

/// The symbol of a MODB.
pub open spec fn modb_index(modb: ModbPresence) -> int {
    match modb {
        ModbPresence::Neither => 0,
        ModbPresence::MvdbOnly => 1,
        ModbPresence::CbpbAndMvdb => 2,
    }
}

/// Read a MODB.
pub fn decode_modb_sac(dec: &mut SacDecoder<'_, '_>) -> (modb: ModbPresence)
    requires
        old(dec).wf(),
    ensures
        modb == modb_of(coder::next_symbol(old(dec)@, models::modb_g())),
        final(dec)@ == coder::after(old(dec)@, models::modb_g()),
        final(dec).wf(),
        *final(final(dec).reader) == *final(old(dec).reader),
        bits::drained(*old(dec).reader, *final(dec).reader),
{
    proof {
        models::lemma_modb_g();
    }
    match dec.decode_symbol(models::modb_g_model()) {
        0 => ModbPresence::Neither,
        1 => ModbPresence::MvdbOnly,
        _ => ModbPresence::CbpbAndMvdb,
    }
}

/// Write a MODB.
pub fn encode_modb_sac(enc: &mut SacEncoder<'_>, modb: ModbPresence)
    requires
        old(enc).wf(),
        old(enc).has_room(1),
    ensures
        final(enc)@ == coder::encoded_all(old(enc)@, one(models::modb_g(), modb_index(modb))),
        final(enc).wf(),
        final(enc).opposite_bits <= old(enc).opposite_bits + 16,
        *final(final(enc).writer) == *final(old(enc).writer),
{
    proof {
        models::lemma_modb_g();
    }
    let index: usize = match modb {
        ModbPresence::Neither => 0,
        ModbPresence::MvdbOnly => 1,
        ModbPresence::CbpbAndMvdb => 2,
    };
    put_symbol(enc, index, models::modb_g_model());
}

/// Reading a MODB undoes writing it.
pub proof fn modb_round_trips(d: Decoding, modb: ModbPresence)
    requires
        coder::reads(d, one(models::modb_g(), modb_index(modb))),
    ensures
        modb_of(coder::next_symbol(d, models::modb_g())) == modb,
{
    inverse::lemma_reads_one(d, Symbol { model: models::modb_g(), index: modb_index(modb) });
}

// ---- CBPB ----

/// The model of bit `k` of CBPB: four luma blocks, then two chroma blocks.
pub open spec fn cbpb_model(k: int) -> Seq<i64> {
    if k < 4 {
        models::ycbpb()
    } else {
        models::uvcbpb()
    }
}

/// The decoder after the first `k` bits of a CBPB.
pub open spec fn after_cbpb(d: Decoding, k: nat) -> Decoding
    decreases k,
{
    if k == 0 {
        d
    } else {
        coder::after(after_cbpb(d, (k - 1) as nat), cbpb_model(k - 1))
    }
}

/// The first `n` bits of the CBPB that a decoder reads.
pub open spec fn cbpb_bits(d: Decoding, n: nat) -> Seq<bool> {
    Seq::new(
        n,
        |k: int| coder::next_symbol(after_cbpb(d, k as nat), cbpb_model(k)) == 1,
    )
}

/// The symbols of the first `n` bits of a CBPB.
pub open spec fn cbpb_script(cbpb: u8, n: nat) -> Seq<Symbol> {
    Seq::new(
        n,
        |k: int|
            Symbol {
                model: cbpb_model(k),
                index: ((cbpb as nat / pow2((5 - k) as nat)) % 2) as int,
            },
    )
}

/// Read a CBPB; the first block is its most significant bit.
pub fn decode_cbpb_sac(dec: &mut SacDecoder<'_, '_>) -> (cbpb: u8)
    requires
        old(dec).wf(),
    ensures
        cbpb == bits::value_of(cbpb_bits(old(dec)@, 6)),
        cbpb < 64,
        final(dec)@ == after_cbpb(old(dec)@, 6),
        final(dec).wf(),
        *final(final(dec).reader) == *final(old(dec).reader),
        bits::drained(*old(dec).reader, *final(dec).reader),
{
    let ghost d = dec@;
    proof {
        models::lemma_ycbpb();
        models::lemma_uvcbpb();
        vstd::arithmetic::power2::lemma2_to64();
    }
    let mut cbpb: u8 = 0;
    let mut k: u8 = 0;
    while k < 6
        invariant
            k <= 6,
            coder::is_model(models::ycbpb()),
            coder::is_model(models::uvcbpb()),
            dec.wf(),
            dec@ == after_cbpb(d, k as nat),
            cbpb == bits::value_of(cbpb_bits(d, k as nat)),
            *final(dec.reader) == *final(old(dec).reader),
            bits::drained(*old(dec).reader, *dec.reader),
        decreases 6 - k,
    {
        let index: usize = if k < 4 {
            dec.decode_symbol(models::ycbpb_model())
        } else {
            dec.decode_symbol(models::uvcbpb_model())
        };
        proof {
            let seen = cbpb_bits(d, k as nat);
            bits::lemma_value_bound(seen);
            vstd::arithmetic::power2::lemma2_to64();
            if k > 0 {
                vstd::arithmetic::power2::lemma_pow2_strictly_increases(k as nat, 6);
            }
            assert(cbpb_bits(d, (k + 1) as nat).drop_last() =~= seen);
        }
        cbpb = 2 * cbpb + if index == 1 {
            1
        } else {
            0
        };
        k = k + 1;
    }
    proof {
        bits::lemma_value_bound(cbpb_bits(d, 6));
        vstd::arithmetic::power2::lemma2_to64();
    }
    cbpb
}

/// Write the low six bits of a CBPB.
pub fn encode_cbpb_sac(enc: &mut SacEncoder<'_>, cbpb: u8)
    requires
        old(enc).wf(),
        old(enc).has_room(6),
    ensures
        final(enc)@ == coder::encoded_all(old(enc)@, cbpb_script(cbpb, 6)),
        final(enc).wf(),
        final(enc).opposite_bits <= old(enc).opposite_bits + 96,
        *final(final(enc).writer) == *final(old(enc).writer),
{
    let ghost e = enc@;
    proof {
        models::lemma_ycbpb();
        models::lemma_uvcbpb();
        vstd::arithmetic::power2::lemma2_to64();
    }
    let mut weight: u8 = 32;
    let mut k: u8 = 0;
    while k < 6
        invariant
            k <= 6,
            weight == if k < 6 {
                pow2((5 - k) as nat) as int
            } else {
                0
            },
            coder::is_model(models::ycbpb()),
            coder::is_model(models::uvcbpb()),
            enc.wf(),
            enc.opposite_bits <= old(enc).opposite_bits + 16 * k,
            old(enc).has_room(6),
            enc@ == coder::encoded_all(e, cbpb_script(cbpb, k as nat)),
            *final(enc.writer) == *final(old(enc).writer),
        decreases 6 - k,
    {
        proof {
            vstd::arithmetic::power2::lemma_pow2_pos((5 - k) as nat);
        }
        let bit: u8 = (cbpb / weight) % 2;
        if k < 4 {
            put_symbol(enc, bit as usize, models::ycbpb_model());
        } else {
            put_symbol(enc, bit as usize, models::uvcbpb_model());
        }
        proof {
            let done = cbpb_script(cbpb, k as nat);
            let next = one(cbpb_model(k as int), bit as int);
            inverse::lemma_encoded_concat(e, done, next);
            assert(done + next =~= cbpb_script(cbpb, (k + 1) as nat));
            if k < 5 {
                vstd::arithmetic::power2::lemma_pow2_unfold((5 - k) as nat);
            } else {
                vstd::arithmetic::power2::lemma2_to64();
            }
        }
        weight = weight / 2;
        k = k + 1;
    }
}

proof fn lemma_cbpb_prefix(d: Decoding, cbpb: u8, n: nat)
    requires
        n <= 6,
        coder::reads(d, cbpb_script(cbpb, n)),
    ensures
        coder::after_all(d, cbpb_script(cbpb, n)) == after_cbpb(d, n),
        forall|k: int|
            0 <= k < n ==> #[trigger] cbpb_bits(d, n)[k] == ((cbpb as nat / pow2((5 - k) as nat))
                % 2 == 1),
    decreases n,
{
    if n > 0 {
        let m = (n - 1) as nat;
        let done = cbpb_script(cbpb, m);
        let next = cbpb_script(cbpb, n).last();
        assert(cbpb_script(cbpb, n) =~= done + seq![next]);
        inverse::lemma_reads_concat(d, done, seq![next]);
        lemma_cbpb_prefix(d, cbpb, m);
        inverse::lemma_reads_one(after_cbpb(d, m), next);
        assert forall|k: int| 0 <= k < n implies #[trigger] cbpb_bits(d, n)[k] == ((cbpb as nat
            / pow2((5 - k) as nat)) % 2 == 1) by {
            if k < m {
                assert(cbpb_bits(d, m)[k] == cbpb_bits(d, n)[k]);
            }
        }
    }
}

/// Reading a CBPB undoes writing it.
pub proof fn cbpb_round_trips(d: Decoding, cbpb: u8)
    requires
        cbpb < 64,
        coder::reads(d, cbpb_script(cbpb, 6)),
    ensures
        bits::value_of(cbpb_bits(d, 6)) == cbpb,
{
    lemma_cbpb_prefix(d, cbpb, 6);
    vstd::arithmetic::power2::lemma2_to64();
    bits::lemma_value_of_bits(cbpb as nat, 6);
    reveal_with_fuel(bits::bits_of, 7);
    let b = bits::bits_of(cbpb as nat, 6);
    let c = cbpb_bits(d, 6);
    assert(c[0] == ((cbpb as nat / 32) % 2 == 1));
    assert(c[1] == ((cbpb as nat / 16) % 2 == 1));
    assert(c[2] == ((cbpb as nat / 8) % 2 == 1));
    assert(c[3] == ((cbpb as nat / 4) % 2 == 1));
    assert(c[4] == ((cbpb as nat / 2) % 2 == 1));
    assert(c[5] == ((cbpb as nat / 1) % 2 == 1));
    assert(c =~= b);
}

// ---- MVD ----

/// Read a vector difference component in half pixels.
pub fn decode_mvd_component_sac(dec: &mut SacDecoder<'_, '_>) -> (half: i8)
    requires
        old(dec).wf(),
    ensures
        half == coder::next_symbol(old(dec)@, models::mvd()) - 32,
        -32 <= half <= 31,
        final(dec)@ == coder::after(old(dec)@, models::mvd()),
        final(dec).wf(),
        *final(final(dec).reader) == *final(old(dec).reader),
        bits::drained(*old(dec).reader, *final(dec).reader),
{
    proof {
        models::lemma_mvd();
    }
    (dec.decode_symbol(models::mvd_model()) as i32 - 32) as i8
}

/// Write a vector difference component in half pixels.
pub fn encode_mvd_component_sac(enc: &mut SacEncoder<'_>, half: i8) -> (res: Result<(), Error>)
    requires
        old(enc).wf(),
        old(enc).has_room(1),
    ensures
        if -32 <= half <= 31 {
            res is Ok && final(enc)@ == coder::encoded_all(old(enc)@, one(models::mvd(), half + 32))
        } else {
            res == Err::<(), Error>(Error::BadMvdCode) && final(enc)@ == old(enc)@
        },
        final(enc).wf(),
        final(enc).opposite_bits <= old(enc).opposite_bits + 16,
        *final(final(enc).writer) == *final(old(enc).writer),
{
    if half < -32 || half > 31 {
        return Err(Error::BadMvdCode);
    }
    proof {
        models::lemma_mvd();
    }
    put_symbol(enc, (half as i32 + 32) as usize, models::mvd_model());
    Ok(())
}

/// Reading a vector difference component undoes writing it.
pub proof fn mvd_round_trips(d: Decoding, half: int)
    requires
        -32 <= half <= 31,
        coder::reads(d, one(models::mvd(), half + 32)),
    ensures
        coder::next_symbol(d, models::mvd()) - 32 == half,
{
    inverse::lemma_reads_one(d, Symbol { model: models::mvd(), index: half + 32 });
}

// ---- INTRADC ----

/// The reconstruction level of an INTRADC symbol.
pub open spec fn intradc_of(index: int) -> int {
    if index == 127 {
        1024
    } else {
        8 * (index + 1)
    }
}

/// INTRADC can express the level.
pub open spec fn is_intradc(level: int) -> bool {
    8 <= level <= 2032 && level % 8 == 0
}

/// The symbol of an INTRADC level.
pub open spec fn intradc_index(level: int) -> int {
    level / 8 - 1
}

/// Read an INTRADC level.
pub fn decode_intradc_sac(dec: &mut SacDecoder<'_, '_>) -> (level: i16)
    requires
        old(dec).wf(),
    ensures
        level == intradc_of(coder::next_symbol(old(dec)@, models::intradc())),
        is_intradc(level as int),
        final(dec)@ == coder::after(old(dec)@, models::intradc()),
        final(dec).wf(),
        *final(final(dec).reader) == *final(old(dec).reader),
        bits::drained(*old(dec).reader, *final(dec).reader),
{
    proof {
        models::lemma_intradc();
    }
    let index = dec.decode_symbol(models::intradc_model());
    if index == 127 {
        1024
    } else {
        (index as i16 + 1) * 8
    }
}

/// Write an INTRADC level.
pub fn encode_intradc_sac(enc: &mut SacEncoder<'_>, level: i16) -> (res: Result<(), Error>)
    requires
        old(enc).wf(),
        old(enc).has_room(1),
    ensures
        if is_intradc(level as int) {
            res is Ok && final(enc)@ == coder::encoded_all(
                old(enc)@,
                one(models::intradc(), intradc_index(level as int)),
            )
        } else {
            res == Err::<(), Error>(Error::BadIntradcCode) && final(enc)@ == old(enc)@
        },
        final(enc).wf(),
        final(enc).opposite_bits <= old(enc).opposite_bits + 16,
        *final(final(enc).writer) == *final(old(enc).writer),
{
    let index: usize = if level == 1024 {
        127
    } else {
        if level < 8 || level > 2032 || level % 8 != 0 {
            return Err(Error::BadIntradcCode);
        }
        (level / 8) as usize - 1
    };
    proof {
        models::lemma_intradc();
    }
    put_symbol(enc, index, models::intradc_model());
    Ok(())
}

/// Reading an INTRADC level undoes writing it.
pub proof fn intradc_round_trips(d: Decoding, level: int)
    requires
        is_intradc(level),
        coder::reads(d, one(models::intradc(), intradc_index(level))),
    ensures
        intradc_of(coder::next_symbol(d, models::intradc())) == level,
{
    inverse::lemma_reads_one(d, Symbol { model: models::intradc(), index: intradc_index(level) });
}

} // verus!
