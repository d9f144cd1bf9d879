//! Macroblocks as arithmetic-coded symbols.

use crate::bits;
use crate::block::{EncodedInterBlock, EncodedIntraBlock};
use crate::error::Error;
use crate::macroblock;
use crate::macroblock::{requantise, H263Macroblock, MbContext, MbType, Mvd};
use crate::pb_layer::ModbPresence;
use crate::picture_header::H263PictureCodingType;
use crate::sac::blocks;
use crate::sac::blocks::write_block_sac;
use crate::sac::coder;
use crate::sac::coder::{Decoding, Encoding, SacDecoder, SacEncoder, Symbol};
use crate::sac::inverse;
use crate::sac::models;
use crate::sac::syntax;
use crate::sac::syntax::{
    decode_cbpb_sac, decode_cbpy_sac, decode_cod, decode_dquant_sac, decode_mcbpc_i_sac,
    decode_mcbpc_p_sac, decode_modb_sac, decode_mvd_component_sac, encode_cbpy_sac, encode_cod,
    encode_mcbpc_i_sac, encode_mcbpc_p_sac, encode_mvd_component_sac,
};
use vstd::prelude::*;

verus! {

/// The vector difference that a decoder reads.
pub open spec fn mvd_read(d: Decoding) -> Mvd {
    Mvd {
        dx_half: (coder::next_symbol(d, models::mvd()) - 32) as i8,
        dy_half: (coder::next_symbol(coder::after(d, models::mvd()), models::mvd()) - 32) as i8,
    }
}

/// The decoder behind a vector difference.
pub open spec fn after_mvd(d: Decoding) -> Decoding {
    coder::after(coder::after(d, models::mvd()), models::mvd())
}

/// `Some` of a value that is sent.
pub open spec fn sent<T>(present: bool, value: T) -> Option<T> {
    if present {
        Some(value)
    } else {
        None
    }
}

/// What a decoder makes of a macroblock header behind COD, and the decoder
/// behind it.
pub open spec fn coded_macroblock_read(d: Decoding, ctx: MbContext) -> (
    Result<H263Macroblock, Error>,
    Decoding,
) {
    let inter = ctx.picture_coding_type == H263PictureCodingType::Inter;
    let (mb_type, cbpc) = if inter {
        syntax::mcbpc_p(coder::next_symbol(d, models::mcbpc_no4mvq()))
    } else {
        syntax::mcbpc_i(coder::next_symbol(d, models::mcbpc_intra()))
    };
    let d_modb = coder::after(
        d,
        if inter {
            models::mcbpc_no4mvq()
        } else {
            models::mcbpc_intra()
        },
    );
    let q = ctx.quantiser_before;
    let modb = sent(
        ctx.pb_frames,
        syntax::modb_of(coder::next_symbol(d_modb, models::modb_g())),
    );
    let d_cbpb = if ctx.pb_frames {
        coder::after(d_modb, models::modb_g())
    } else {
        d_modb
    };
    let has_cbpb = modb == Some(ModbPresence::CbpbAndMvdb);
    let d_cbpy = if has_cbpb {
        syntax::after_cbpb(d_cbpb, 6)
    } else {
        d_cbpb
    };
    let cbpy_model = syntax::cbpy_model(mb_type.intra());
    let d_dquant = coder::after(d_cbpy, cbpy_model);
    let diff = syntax::dquant_of(coder::next_symbol(d_dquant, models::dquant()));
    let d_mvd = if mb_type.requantises() {
        coder::after(d_dquant, models::dquant())
    } else {
        d_dquant
    };
    let has_mvd = mb_type.inter() || (ctx.pb_frames && mb_type.intra());
    let d_mvd2 = if has_mvd {
        after_mvd(d_mvd)
    } else {
        d_mvd
    };
    let four = mb_type.four_vectors();
    let d_mvdb = if four {
        after_mvd(after_mvd(after_mvd(d_mvd2)))
    } else {
        d_mvd2
    };
    let has_mvdb = modb is Some && modb != Some(ModbPresence::Neither);
    if mb_type == MbType::Stuffing {
        (
            Ok(
                H263Macroblock {
                    mb_type: Some(MbType::Stuffing),
                    ..macroblock::bare_macroblock(true, q)
                },
            ),
            d_modb,
        )
    } else if four && !ctx.advanced_prediction && !ctx.deblocking_filter {
        (Err(Error::NotImplemented), d_modb)
    } else {
        (
            Ok(
                H263Macroblock {
                    mb_type: Some(mb_type),
                    cbpc: Some(cbpc),
                    cbpy: Some(coder::next_symbol(d_cbpy, cbpy_model) as u8),
                    dquant: sent(mb_type.requantises(), diff as i8),
                    quantiser_after: if mb_type.requantises() {
                        macroblock::requantised(q as int, diff) as u8
                    } else {
                        q
                    },
                    mvd: sent(has_mvd, mvd_read(d_mvd)),
                    mvd2: sent(four, mvd_read(d_mvd2)),
                    mvd3: sent(four, mvd_read(after_mvd(d_mvd2))),
                    mvd4: sent(four, mvd_read(after_mvd(after_mvd(d_mvd2)))),
                    modb,
                    cbpb: sent(
                        has_cbpb,
                        bits::value_of(syntax::cbpb_bits(d_cbpb, 6)) as u8,
                    ),
                    mvdb: sent(has_mvdb, mvd_read(d_mvdb)),
                    ..macroblock::bare_macroblock(true, q)
                },
            ),
            if has_mvdb {
                after_mvd(d_mvdb)
            } else {
                d_mvdb
            },
        )
    }
}

/// What a decoder makes of a macroblock header, and the decoder behind it.
pub open spec fn macroblock_read(d: Decoding, ctx: MbContext) -> (
    Result<H263Macroblock, Error>,
    Decoding,
) {
    let q = ctx.quantiser_before;
    if ctx.aic_intra_mode || ctx.modified_quant || ctx.pb_annex_m {
        (Err(Error::NotImplemented), d)
    } else if q == 0 || q > 31 {
        (Err(Error::InvalidQuantiser), d)
    } else if ctx.picture_coding_type == H263PictureCodingType::Intra {
        coded_macroblock_read(d, ctx)
    } else if coder::next_symbol(d, models::cod()) == 0 {
        coded_macroblock_read(coder::after(d, models::cod()), ctx)
    } else {
        (Ok(macroblock::bare_macroblock(false, q)), coder::after(d, models::cod()))
    }
}

fn decode_mvd(dec: &mut SacDecoder<'_, '_>) -> (mvd: Mvd)
    requires
        old(dec).wf(),
    ensures
        mvd == mvd_read(old(dec)@),
        final(dec)@ == after_mvd(old(dec)@),
        final(dec).wf(),
        *final(final(dec).reader) == *final(old(dec).reader),
        bits::drained(*old(dec).reader, *final(dec).reader),
{
    let dx_half: i8 = decode_mvd_component_sac(dec);
    let dy_half: i8 = decode_mvd_component_sac(dec);
    Mvd { dx_half, dy_half }
}

/// Read one macroblock header.
///
/// Advanced INTRA coding, modified quantisation and improved PB-frames do not
/// combine with arithmetic coding.
pub fn parse_macroblock_sac(dec: &mut SacDecoder<'_, '_>, ctx: MbContext) -> (res: Result<
    H263Macroblock,
    Error,
>)
    requires
        old(dec).wf(),
    ensures
        res == macroblock_read(old(dec)@, ctx).0,
        final(dec)@ == macroblock_read(old(dec)@, ctx).1,
        final(dec).wf(),
        *final(final(dec).reader) == *final(old(dec).reader),
        bits::drained(*old(dec).reader, *final(dec).reader),
{
    if ctx.aic_intra_mode || ctx.modified_quant || ctx.pb_annex_m {
        return Err(Error::NotImplemented);
    }
    let q = ctx.quantiser_before;
    if q == 0 || q > 31 {
        return Err(Error::InvalidQuantiser);
    }
    let inter = matches!(ctx.picture_coding_type, H263PictureCodingType::Inter);
    if inter {
        if !decode_cod(dec) {
            return Ok(H263Macroblock::bare(false, q));
        }
    }
    let mut mb = H263Macroblock::bare(true, q);
    let (mb_type, cbpc) = if inter {
        decode_mcbpc_p_sac(dec)?
    } else {
        decode_mcbpc_i_sac(dec)?
    };
    mb.mb_type = Some(mb_type);
    if matches!(mb_type, MbType::Stuffing) {
        return Ok(mb);
    }
    if matches!(mb_type, MbType::Inter4V | MbType::Inter4VQ) && !(ctx.advanced_prediction
        || ctx.deblocking_filter) {
        return Err(Error::NotImplemented);
    }
    mb.cbpc = Some(cbpc);
    if ctx.pb_frames {
        mb.modb = Some(decode_modb_sac(dec));
    }
    let (has_cbpb, has_mvdb) = match mb.modb {
        Some(m) => (m.has_cbpb(), m.has_mvdb()),
        None => (false, false),
    };
    if has_cbpb {
        mb.cbpb = Some(decode_cbpb_sac(dec));
    }
    mb.cbpy = Some(decode_cbpy_sac(dec, mb_type.is_intra()));
    if mb_type.has_dquant() {
        let diff: i8 = decode_dquant_sac(dec);
        mb.dquant = Some(diff);
        mb.quantiser_after = requantise(q, diff);
    }
    if mb_type.has_mvd() || (ctx.pb_frames && mb_type.is_intra()) {
        mb.mvd = Some(decode_mvd(dec));
    }
    if mb_type.has_mvd2_4(ctx.advanced_prediction, ctx.deblocking_filter) {
        mb.mvd2 = Some(decode_mvd(dec));
        mb.mvd3 = Some(decode_mvd(dec));
        mb.mvd4 = Some(decode_mvd(dec));
    }
    if has_mvdb {
        mb.mvdb = Some(decode_mvd(dec));
    }
    Ok(mb)
}

// ---- Writing ----

/// A four-bit pattern, first flag most significant.
pub open spec fn pattern(a: bool, b: bool, c: bool, d: bool) -> u8 {
    (8 * bits::bit_value(a) + 4 * bits::bit_value(b) + 2 * bits::bit_value(c) + bits::bit_value(
        d,
    )) as u8
}

/// A four-bit pattern, first flag most significant.
fn pattern_of(a: bool, b: bool, c: bool, d: bool) -> (p: u8)
    ensures
        p == pattern(a, b, c, d),
        p < 16,
{
    let mut p: u8 = 0;
    if a {
        p = p + 8;
    }
    if b {
        p = p + 4;
    }
    if c {
        p = p + 2;
    }
    if d {
        p = p + 1;
    }
    p
}

/// The symbols of a vector difference component.
pub open spec fn mvd_component_script(half: int) -> blocks::Script {
    if -32 <= half <= 31 {
        blocks::complete(syntax::one(models::mvd(), half + 32))
    } else {
        blocks::refused(Error::BadMvdCode)
    }
}

/// The symbols of a vector difference.
pub open spec fn mvd_script(mvd: Mvd) -> blocks::Script {
    blocks::both(
        mvd_component_script(mvd.dx_half as int),
        mvd_component_script(mvd.dy_half as int),
    )
}

/// The symbols up to and including CBPY of an INTRA macroblock.
pub open spec fn intra_header_script(
    luma: Seq<EncodedIntraBlock>,
    cb: EncodedIntraBlock,
    cr: EncodedIntraBlock,
    write_cod: bool,
    picture_is_inter: bool,
) -> Seq<Symbol> {
    let cbpc = pattern(false, false, cb.has_ac, cr.has_ac);
    let cbpy = pattern(luma[0].has_ac, luma[1].has_ac, luma[2].has_ac, luma[3].has_ac);
    (if write_cod {
        syntax::cod_script(true)
    } else {
        Seq::empty()
    }) + (if picture_is_inter {
        syntax::one(models::mcbpc_no4mvq(), 12 + cbpc)
    } else {
        syntax::one(models::mcbpc_intra(), cbpc as int)
    }) + syntax::one(models::cbpy_intra(), cbpy as int)
}

/// The symbols of one block of an INTRA macroblock.
pub open spec fn intra_block_script(b: EncodedIntraBlock) -> blocks::Script {
    blocks::block_script(Some(b.dc_level), b.scan@, b.has_ac, true)
}

/// The symbols of an INTRA macroblock.
pub open spec fn intra_macroblock_script(
    luma: Seq<EncodedIntraBlock>,
    cb: EncodedIntraBlock,
    cr: EncodedIntraBlock,
    write_cod: bool,
    picture_is_inter: bool,
) -> blocks::Script {
    blocks::both(
        blocks::both(
            blocks::both(
                blocks::both(
                    blocks::both(
                        blocks::both(
                            blocks::complete(
                                intra_header_script(
                                    luma,
                                    cb,
                                    cr,
                                    write_cod,
                                    picture_is_inter,
                                ),
                            ),
                            intra_block_script(luma[0]),
                        ),
                        intra_block_script(luma[1]),
                    ),
                    intra_block_script(luma[2]),
                ),
                intra_block_script(luma[3]),
            ),
            intra_block_script(cb),
        ),
        intra_block_script(cr),
    )
}

/// Writing two strings of symbols in turn is writing both.
proof fn lemma_wrote(
    e0: Encoding,
    e1: Encoding,
    e2: Encoding,
    a: Seq<Symbol>,
    b: blocks::Script,
    res: Result<(), Error>,
)
    requires
        e1 == coder::encoded_all(e0, a),
        blocks::wrote(e1, e2, b, res),
    ensures
        blocks::wrote(e0, e2, blocks::both(blocks::complete(a), b), res),
{
    inverse::lemma_encoded_concat(e0, a, b.symbols);
}

/// Write an INTRA macroblock without a quantiser change.
///
/// COD is written in P-pictures only.
pub fn encode_intra_macroblock_sac(
    enc: &mut SacEncoder<'_>,
    luma: &[EncodedIntraBlock; 4],
    cb: &EncodedIntraBlock,
    cr: &EncodedIntraBlock,
    write_cod: bool,
    picture_is_inter: bool,
) -> (res: Result<(), Error>)
    requires
        old(enc).wf(),
        old(enc).has_room(1600),
    ensures
        blocks::wrote(
            old(enc)@,
            final(enc)@,
            intra_macroblock_script(luma@, *cb, *cr, write_cod, picture_is_inter),
            res,
        ),
        final(enc).wf(),
        final(enc).opposite_bits <= old(enc).opposite_bits + 16 * 1600,
        *final(final(enc).writer) == *final(old(enc).writer),
{
    let ghost e0 = enc@;
    let ghost mut done = Seq::<Symbol>::empty();
    if write_cod {
        encode_cod(enc, true);
        proof {
            done = syntax::cod_script(true);
        }
    }
    let cbpc: u8 = pattern_of(false, false, cb.has_ac, cr.has_ac);
    let ghost e1 = enc@;
    if picture_is_inter {
        encode_mcbpc_p_sac(enc, MbType::Intra, cbpc)?;
    } else {
        encode_mcbpc_i_sac(enc, MbType::Intra, cbpc)?;
    }
    proof {
        let next = if picture_is_inter {
            syntax::one(models::mcbpc_no4mvq(), 12 + cbpc)
        } else {
            syntax::one(models::mcbpc_intra(), cbpc as int)
        };
        inverse::lemma_encoded_concat(e0, done, next);
        done = done + next;
    }
    let cbpy: u8 = pattern_of(luma[0].has_ac, luma[1].has_ac, luma[2].has_ac, luma[3].has_ac);
    encode_cbpy_sac(enc, cbpy, true)?;
    proof {
        let next = syntax::one(models::cbpy_intra(), cbpy as int);
        inverse::lemma_encoded_concat(e0, done, next);
        done = done + next;
        assert(done == intra_header_script(luma@, *cb, *cr, write_cod, picture_is_inter));
    }
    let mut k: usize = 0;
    let ghost mut script: blocks::Script = blocks::complete(done);
    while k < 6
        invariant
            k <= 6,
            enc.wf(),
            enc.opposite_bits <= old(enc).opposite_bits + 48 + 4112 * k,
            old(enc).has_room(1600),
            e0 == old(enc)@,
            script.error is None,
            enc@ == coder::encoded_all(e0, script.symbols),
            intra_macroblock_script(luma@, *cb, *cr, write_cod, picture_is_inter)
                == intra_blocks_from(script, luma@, *cb, *cr, k as int),
            *final(enc.writer) == *final(old(enc).writer),
        decreases 6 - k,
    {
        let b = if k < 4 {
            &luma[k]
        } else if k == 4 {
            cb
        } else {
            cr
        };
        let ghost before = enc@;
        let ghost s = script.symbols;
        let r = write_block_sac(enc, Some(b.dc_level), &b.scan, b.has_ac, true);
        proof {
            lemma_wrote(e0, before, enc@, s, intra_block_script(*b), r);
            script = blocks::both(script, intra_block_script(*b));
        }
        if let Err(e) = r {
            return Err(e);
        }
        k = k + 1;
    }
    Ok(())
}

/// `script` and the blocks of an INTRA macroblock from number `k` on.
spec fn intra_blocks_from(
    script: blocks::Script,
    luma: Seq<EncodedIntraBlock>,
    cb: EncodedIntraBlock,
    cr: EncodedIntraBlock,
    k: int,
) -> blocks::Script {
    let s0 = if k <= 0 {
        blocks::both(script, intra_block_script(luma[0]))
    } else {
        script
    };
    let s1 = if k <= 1 {
        blocks::both(s0, intra_block_script(luma[1]))
    } else {
        s0
    };
    let s2 = if k <= 2 {
        blocks::both(s1, intra_block_script(luma[2]))
    } else {
        s1
    };
    let s3 = if k <= 3 {
        blocks::both(s2, intra_block_script(luma[3]))
    } else {
        s2
    };
    let s4 = if k <= 4 {
        blocks::both(s3, intra_block_script(cb))
    } else {
        s3
    };
    if k <= 5 {
        blocks::both(s4, intra_block_script(cr))
    } else {
        s4
    }
}

/// The symbols up to and including CBPY of an INTER macroblock; `base` is the
/// MCBPC symbol of its type with no chroma.
pub open spec fn inter_header_script(
    luma: Seq<EncodedInterBlock>,
    cb: EncodedInterBlock,
    cr: EncodedInterBlock,
    base: int,
) -> Seq<Symbol> {
    let cbpc = pattern(false, false, cb.has_coeffs, cr.has_coeffs);
    let cbpy = pattern(
        luma[0].has_coeffs,
        luma[1].has_coeffs,
        luma[2].has_coeffs,
        luma[3].has_coeffs,
    );
    syntax::cod_script(true) + syntax::one(models::mcbpc_no4mvq(), base + cbpc) + syntax::one(
        models::cbpy(),
        15 - cbpy,
    )
}

/// The symbols of one block of an INTER macroblock: none, if it is empty.
pub open spec fn inter_block_script(b: EncodedInterBlock) -> blocks::Script {
    if b.has_coeffs {
        blocks::block_script(None, b.scan@, true, false)
    } else {
        blocks::complete(Seq::empty())
    }
}

/// `script` and the blocks of an INTER macroblock from number `k` on.
pub open spec fn inter_blocks_from(
    script: blocks::Script,
    luma: Seq<EncodedInterBlock>,
    cb: EncodedInterBlock,
    cr: EncodedInterBlock,
    k: int,
) -> blocks::Script {
    let s0 = if k <= 0 {
        blocks::both(script, inter_block_script(luma[0]))
    } else {
        script
    };
    let s1 = if k <= 1 {
        blocks::both(s0, inter_block_script(luma[1]))
    } else {
        s0
    };
    let s2 = if k <= 2 {
        blocks::both(s1, inter_block_script(luma[2]))
    } else {
        s1
    };
    let s3 = if k <= 3 {
        blocks::both(s2, inter_block_script(luma[3]))
    } else {
        s2
    };
    let s4 = if k <= 4 {
        blocks::both(s3, inter_block_script(cb))
    } else {
        s3
    };
    if k <= 5 {
        blocks::both(s4, inter_block_script(cr))
    } else {
        s4
    }
}

/// The symbols of an INTER macroblock with one vector.
pub open spec fn inter_macroblock_script(
    luma: Seq<EncodedInterBlock>,
    cb: EncodedInterBlock,
    cr: EncodedInterBlock,
    mvd: Mvd,
) -> blocks::Script {
    inter_blocks_from(
        blocks::both(blocks::complete(inter_header_script(luma, cb, cr, 0)), mvd_script(mvd)),
        luma,
        cb,
        cr,
        0,
    )
}

/// The symbols of an INTER macroblock with four vectors.
pub open spec fn inter4v_macroblock_script(
    luma: Seq<EncodedInterBlock>,
    cb: EncodedInterBlock,
    cr: EncodedInterBlock,
    mvds: Seq<Mvd>,
) -> blocks::Script {
    inter_blocks_from(
        blocks::both(
            blocks::both(
                blocks::both(
                    blocks::both(
                        blocks::complete(inter_header_script(luma, cb, cr, 8)),
                        mvd_script(mvds[0]),
                    ),
                    mvd_script(mvds[1]),
                ),
                mvd_script(mvds[2]),
            ),
            mvd_script(mvds[3]),
        ),
        luma,
        cb,
        cr,
        0,
    )
}

fn encode_inter_header(
    enc: &mut SacEncoder<'_>,
    luma: &[EncodedInterBlock; 4],
    cb: &EncodedInterBlock,
    cr: &EncodedInterBlock,
    four_vectors: bool,
) -> (res: Result<(), Error>)
    requires
        old(enc).wf(),
        old(enc).has_room(3),
    ensures
        res is Ok,
        final(enc)@ == coder::encoded_all(
            old(enc)@,
            inter_header_script(
                luma@,
                *cb,
                *cr,
                if four_vectors {
                    8
                } else {
                    0
                },
            ),
        ),
        final(enc).wf(),
        final(enc).opposite_bits <= old(enc).opposite_bits + 48,
        *final(final(enc).writer) == *final(old(enc).writer),
{
    let ghost e0 = enc@;
    encode_cod(enc, true);
    let ghost mut done = syntax::cod_script(true);
    let cbpc: u8 = pattern_of(false, false, cb.has_coeffs, cr.has_coeffs);
    let mb_type = if four_vectors {
        MbType::Inter4V
    } else {
        MbType::Inter
    };
    encode_mcbpc_p_sac(enc, mb_type, cbpc)?;
    proof {
        let next = syntax::one(
            models::mcbpc_no4mvq(),
            (if four_vectors {
                8int
            } else {
                0int
            }) + cbpc,
        );
        inverse::lemma_encoded_concat(e0, done, next);
        done = done + next;
    }
    let cbpy: u8 = pattern_of(
        luma[0].has_coeffs,
        luma[1].has_coeffs,
        luma[2].has_coeffs,
        luma[3].has_coeffs,
    );
    encode_cbpy_sac(enc, 15 - cbpy, false)?;
    proof {
        inverse::lemma_encoded_concat(e0, done, syntax::one(models::cbpy(), 15 - cbpy));
    }
    Ok(())
}

fn encode_mvd(enc: &mut SacEncoder<'_>, mvd: Mvd) -> (res: Result<(), Error>)
    requires
        old(enc).wf(),
        old(enc).has_room(2),
    ensures
        blocks::wrote(old(enc)@, final(enc)@, mvd_script(mvd), res),
        final(enc).wf(),
        final(enc).opposite_bits <= old(enc).opposite_bits + 32,
        *final(final(enc).writer) == *final(old(enc).writer),
{
    let ghost e0 = enc@;
    encode_mvd_component_sac(enc, mvd.dx_half)?;
    encode_mvd_component_sac(enc, mvd.dy_half)?;
    proof {
        inverse::lemma_encoded_concat(
            e0,
            mvd_component_script(mvd.dx_half as int).symbols,
            mvd_component_script(mvd.dy_half as int).symbols,
        );
    }
    Ok(())
}

fn encode_inter_blocks(
    enc: &mut SacEncoder<'_>,
    luma: &[EncodedInterBlock; 4],
    cb: &EncodedInterBlock,
    cr: &EncodedInterBlock,
    Ghost(e0): Ghost<Encoding>,
    Ghost(header): Ghost<Seq<Symbol>>,
) -> (res: Result<(), Error>)
    requires
        old(enc).wf(),
        old(enc).has_room(1550),
        old(enc)@ == coder::encoded_all(e0, header),
    ensures
        blocks::wrote(
            e0,
            final(enc)@,
            inter_blocks_from(blocks::complete(header), luma@, *cb, *cr, 0),
            res,
        ),
        final(enc).wf(),
        final(enc).opposite_bits <= old(enc).opposite_bits + 16 * 1550,
        *final(final(enc).writer) == *final(old(enc).writer),
{
    let mut k: usize = 0;
    let ghost mut script: blocks::Script = blocks::complete(header);
    while k < 6
        invariant
            k <= 6,
            enc.wf(),
            enc.opposite_bits <= old(enc).opposite_bits + 4112 * k,
            old(enc).has_room(1550),
            script.error is None,
            enc@ == coder::encoded_all(e0, script.symbols),
            inter_blocks_from(blocks::complete(header), luma@, *cb, *cr, 0) == inter_blocks_from(
                script,
                luma@,
                *cb,
                *cr,
                k as int,
            ),
            *final(enc.writer) == *final(old(enc).writer),
        decreases 6 - k,
    {
        let b = if k < 4 {
            &luma[k]
        } else if k == 4 {
            cb
        } else {
            cr
        };
        let ghost before = enc@;
        let ghost s = script.symbols;
        if b.has_coeffs {
            let r = write_block_sac(enc, None, &b.scan, true, false);
            proof {
                lemma_wrote(e0, before, enc@, s, inter_block_script(*b), r);
                script = blocks::both(script, inter_block_script(*b));
            }
            if let Err(e) = r {
                return Err(e);
            }
        } else {
            proof {
                script = blocks::both(script, inter_block_script(*b));
                assert(s + Seq::<Symbol>::empty() =~= s);
            }
        }
        k = k + 1;
    }
    Ok(())
}

/// Write an INTER macroblock with one vector and no quantiser change.
pub fn encode_inter_macroblock_sac(
    enc: &mut SacEncoder<'_>,
    luma: &[EncodedInterBlock; 4],
    cb: &EncodedInterBlock,
    cr: &EncodedInterBlock,
    mvd: Mvd,
) -> (res: Result<(), Error>)
    requires
        old(enc).wf(),
        old(enc).has_room(1600),
    ensures
        blocks::wrote(
            old(enc)@,
            final(enc)@,
            inter_macroblock_script(luma@, *cb, *cr, mvd),
            res,
        ),
        final(enc).wf(),
        final(enc).opposite_bits <= old(enc).opposite_bits + 16 * 1600,
        *final(final(enc).writer) == *final(old(enc).writer),
{
    let ghost e0 = enc@;
    let ghost header = inter_header_script(luma@, *cb, *cr, 0);
    encode_inter_header(enc, luma, cb, cr, false)?;
    let ghost e1 = enc@;
    let r = encode_mvd(enc, mvd);
    proof {
        lemma_wrote(e0, e1, enc@, header, mvd_script(mvd), r);
    }
    if let Err(e) = r {
        return Err(e);
    }
    encode_inter_blocks(
        enc,
        luma,
        cb,
        cr,
        Ghost(e0),
        Ghost(blocks::both(blocks::complete(header), mvd_script(mvd)).symbols),
    )
}

/// Write a macroblock that is not coded.
pub fn encode_skipped_macroblock_sac(enc: &mut SacEncoder<'_>)
    requires
        old(enc).wf(),
        old(enc).has_room(1),
    ensures
        final(enc)@ == coder::encoded_all(old(enc)@, syntax::cod_script(false)),
        final(enc).wf(),
        final(enc).opposite_bits <= old(enc).opposite_bits + 16,
        *final(final(enc).writer) == *final(old(enc).writer),
{
    encode_cod(enc, false);
}

/// Write an INTER macroblock with four vectors and no quantiser change.
pub fn encode_inter4v_macroblock_sac(
    enc: &mut SacEncoder<'_>,
    luma: &[EncodedInterBlock; 4],
    cb: &EncodedInterBlock,
    cr: &EncodedInterBlock,
    mvds: &[Mvd; 4],
) -> (res: Result<(), Error>)
    requires
        old(enc).wf(),
        old(enc).has_room(1600),
    ensures
        blocks::wrote(
            old(enc)@,
            final(enc)@,
            inter4v_macroblock_script(luma@, *cb, *cr, mvds@),
            res,
        ),
        final(enc).wf(),
        final(enc).opposite_bits <= old(enc).opposite_bits + 16 * 1600,
        *final(final(enc).writer) == *final(old(enc).writer),
{
    let ghost e0 = enc@;
    encode_inter_header(enc, luma, cb, cr, true)?;
    let ghost mut script: blocks::Script = blocks::complete(
        inter_header_script(luma@, *cb, *cr, 8),
    );
    let mut k: usize = 0;
    while k < 4
        invariant
            k <= 4,
            enc.wf(),
            enc.opposite_bits <= old(enc).opposite_bits + 48 + 32 * k,
            old(enc).has_room(1600),
            e0 == old(enc)@,
            script.error is None,
            enc@ == coder::encoded_all(e0, script.symbols),
            inter4v_macroblock_script(luma@, *cb, *cr, mvds@) == inter_blocks_from(
                mvds_from(script, mvds@, k as int),
                luma@,
                *cb,
                *cr,
                0,
            ),
            *final(enc.writer) == *final(old(enc).writer),
        decreases 4 - k,
    {
        let ghost before = enc@;
        let ghost s = script.symbols;
        let r = encode_mvd(enc, mvds[k]);
        proof {
            lemma_wrote(e0, before, enc@, s, mvd_script(mvds@[k as int]), r);
            script = blocks::both(script, mvd_script(mvds@[k as int]));
        }
        if let Err(e) = r {
            return Err(e);
        }
        k = k + 1;
    }
    encode_inter_blocks(enc, luma, cb, cr, Ghost(e0), Ghost(script.symbols))
}

/// `script` and four vector differences from number `k` on.
spec fn mvds_from(script: blocks::Script, mvds: Seq<Mvd>, k: int) -> blocks::Script {
    let s0 = if k <= 0 {
        blocks::both(script, mvd_script(mvds[0]))
    } else {
        script
    };
    let s1 = if k <= 1 {
        blocks::both(s0, mvd_script(mvds[1]))
    } else {
        s0
    };
    let s2 = if k <= 2 {
        blocks::both(s1, mvd_script(mvds[2]))
    } else {
        s1
    };
    if k <= 3 {
        blocks::both(s2, mvd_script(mvds[3]))
    } else {
        s2
    }
}

// ---- Laws ----

/// A macroblock context that arithmetic coding supports, outside PB-frames.
pub open spec fn is_plain(ctx: MbContext, coding_type: H263PictureCodingType) -> bool {
    &&& ctx.picture_coding_type == coding_type
    &&& !ctx.aic_intra_mode
    &&& !ctx.modified_quant
    &&& !ctx.pb_annex_m
    &&& !ctx.pb_frames
    &&& 1 <= ctx.quantiser_before <= 31
}

/// Reading a macroblock that is not coded undoes writing it.
pub proof fn skipped_macroblock_round_trips(d: Decoding, ctx: MbContext)
    requires
        is_plain(ctx, H263PictureCodingType::Inter),
        coder::reads(d, syntax::cod_script(false)),
    ensures
        macroblock_read(d, ctx) == (
            Ok::<H263Macroblock, Error>(macroblock::bare_macroblock(false, ctx.quantiser_before)),
            coder::after_all(d, syntax::cod_script(false)),
        ),
{
    syntax::cod_round_trips(d, false);
}

proof fn lemma_mvd_read(d: Decoding, mvd: Mvd)
    requires
        mvd_script(mvd).error is None,
        coder::reads(d, mvd_script(mvd).symbols),
    ensures
        mvd_read(d) == mvd,
        after_mvd(d) == coder::after_all(d, mvd_script(mvd).symbols),
{
    let a = Symbol { model: models::mvd(), index: mvd.dx_half + 32 };
    let b = Symbol { model: models::mvd(), index: mvd.dy_half + 32 };
    inverse::lemma_reads_concat(d, seq![a], seq![b]);
    inverse::lemma_reads_one(d, a);
    inverse::lemma_reads_one(coder::after(d, models::mvd()), b);
}

/// Three symbols in a row.
proof fn lemma_reads_three(d: Decoding, a: Symbol, b: Symbol, c: Symbol)
    requires
        coder::reads(d, seq![a] + seq![b] + seq![c]),
    ensures
        ({
            let d1 = coder::after(d, a.model);
            let d2 = coder::after(d1, b.model);
            &&& coder::next_symbol(d, a.model) == a.index
            &&& coder::next_symbol(d1, b.model) == b.index
            &&& coder::next_symbol(d2, c.model) == c.index
            &&& coder::after(d2, c.model) == coder::after_all(d, seq![a] + seq![b] + seq![c])
        }),
{
    inverse::lemma_reads_concat(d, seq![a] + seq![b], seq![c]);
    inverse::lemma_reads_concat(d, seq![a], seq![b]);
    inverse::lemma_reads_one(d, a);
    let d1 = coder::after(d, a.model);
    inverse::lemma_reads_one(d1, b);
    inverse::lemma_reads_one(coder::after(d1, b.model), c);
}

/// Reading the header of an INTER macroblock with one vector undoes writing it.
pub proof fn inter_header_round_trips(
    d: Decoding,
    ctx: MbContext,
    luma: Seq<EncodedInterBlock>,
    cb: EncodedInterBlock,
    cr: EncodedInterBlock,
    mvd: Mvd,
)
    requires
        is_plain(ctx, H263PictureCodingType::Inter),
        luma.len() == 4,
        mvd_script(mvd).error is None,
        coder::reads(d, inter_header_script(luma, cb, cr, 0) + mvd_script(mvd).symbols),
    ensures
        macroblock_read(d, ctx) == (
            Ok::<H263Macroblock, Error>(
                H263Macroblock {
                    mb_type: Some(MbType::Inter),
                    cbpc: Some(pattern(false, false, cb.has_coeffs, cr.has_coeffs)),
                    cbpy: Some(
                        (15 - pattern(
                            luma[0].has_coeffs,
                            luma[1].has_coeffs,
                            luma[2].has_coeffs,
                            luma[3].has_coeffs,
                        )) as u8,
                    ),
                    mvd: Some(mvd),
                    ..macroblock::bare_macroblock(true, ctx.quantiser_before)
                },
            ),
            coder::after_all(d, inter_header_script(luma, cb, cr, 0) + mvd_script(mvd).symbols),
        ),
{
    let h = inter_header_script(luma, cb, cr, 0);
    let cbpc = pattern(false, false, cb.has_coeffs, cr.has_coeffs);
    let cbpy = pattern(
        luma[0].has_coeffs,
        luma[1].has_coeffs,
        luma[2].has_coeffs,
        luma[3].has_coeffs,
    );
    let a = Symbol { model: models::cod(), index: 0 };
    let b = Symbol { model: models::mcbpc_no4mvq(), index: 0 + cbpc };
    let c = Symbol { model: models::cbpy(), index: 15 - cbpy };
    inverse::lemma_reads_concat(d, h, mvd_script(mvd).symbols);
    lemma_reads_three(d, a, b, c);
    lemma_mvd_read(coder::after_all(d, h), mvd);
}

/// Reading the header of an INTER macroblock with four vectors undoes writing
/// it, in a mode that has them.
pub proof fn inter4v_header_round_trips(
    d: Decoding,
    ctx: MbContext,
    luma: Seq<EncodedInterBlock>,
    cb: EncodedInterBlock,
    cr: EncodedInterBlock,
    mvds: Seq<Mvd>,
)
    requires
        is_plain(ctx, H263PictureCodingType::Inter),
        ctx.advanced_prediction || ctx.deblocking_filter,
        luma.len() == 4,
        mvds.len() == 4,
        forall|k: int| 0 <= k < 4 ==> mvd_script(#[trigger] mvds[k]).error is None,
        coder::reads(
            d,
            inter_header_script(luma, cb, cr, 8) + mvd_script(mvds[0]).symbols + mvd_script(
                mvds[1],
            ).symbols + mvd_script(mvds[2]).symbols + mvd_script(mvds[3]).symbols,
        ),
    ensures
        macroblock_read(d, ctx) == (
            Ok::<H263Macroblock, Error>(
                H263Macroblock {
                    mb_type: Some(MbType::Inter4V),
                    cbpc: Some(pattern(false, false, cb.has_coeffs, cr.has_coeffs)),
                    cbpy: Some(
                        (15 - pattern(
                            luma[0].has_coeffs,
                            luma[1].has_coeffs,
                            luma[2].has_coeffs,
                            luma[3].has_coeffs,
                        )) as u8,
                    ),
                    mvd: Some(mvds[0]),
                    mvd2: Some(mvds[1]),
                    mvd3: Some(mvds[2]),
                    mvd4: Some(mvds[3]),
                    ..macroblock::bare_macroblock(true, ctx.quantiser_before)
                },
            ),
            coder::after_all(
                d,
                inter_header_script(luma, cb, cr, 8) + mvd_script(mvds[0]).symbols + mvd_script(
                    mvds[1],
                ).symbols + mvd_script(mvds[2]).symbols + mvd_script(mvds[3]).symbols,
            ),
        ),
{
    let h = inter_header_script(luma, cb, cr, 8);
    let cbpc = pattern(false, false, cb.has_coeffs, cr.has_coeffs);
    let cbpy = pattern(
        luma[0].has_coeffs,
        luma[1].has_coeffs,
        luma[2].has_coeffs,
        luma[3].has_coeffs,
    );
    let m0 = mvd_script(mvds[0]).symbols;
    let m1 = mvd_script(mvds[1]).symbols;
    let m2 = mvd_script(mvds[2]).symbols;
    let m3 = mvd_script(mvds[3]).symbols;
    let a = Symbol { model: models::cod(), index: 0 };
    let b = Symbol { model: models::mcbpc_no4mvq(), index: 8 + cbpc };
    let c = Symbol { model: models::cbpy(), index: 15 - cbpy };
    inverse::lemma_reads_concat(d, h + m0 + m1 + m2, m3);
    inverse::lemma_reads_concat(d, h + m0 + m1, m2);
    inverse::lemma_reads_concat(d, h + m0, m1);
    inverse::lemma_reads_concat(d, h, m0);
    lemma_reads_three(d, a, b, c);
    lemma_mvd_read(coder::after_all(d, h), mvds[0]);
    lemma_mvd_read(coder::after_all(d, h + m0), mvds[1]);
    lemma_mvd_read(coder::after_all(d, h + m0 + m1), mvds[2]);
    lemma_mvd_read(coder::after_all(d, h + m0 + m1 + m2), mvds[3]);
}

/// Reading the header of an INTRA macroblock undoes writing it, in I-pictures
/// and, with COD, in P-pictures.
pub proof fn intra_header_round_trips(
    d: Decoding,
    ctx: MbContext,
    luma: Seq<EncodedIntraBlock>,
    cb: EncodedIntraBlock,
    cr: EncodedIntraBlock,
    inter: bool,
)
    requires
        is_plain(
            ctx,
            if inter {
                H263PictureCodingType::Inter
            } else {
                H263PictureCodingType::Intra
            },
        ),
        luma.len() == 4,
        coder::reads(d, intra_header_script(luma, cb, cr, inter, inter)),
    ensures
        macroblock_read(d, ctx) == (
            Ok::<H263Macroblock, Error>(
                H263Macroblock {
                    mb_type: Some(MbType::Intra),
                    cbpc: Some(pattern(false, false, cb.has_ac, cr.has_ac)),
                    cbpy: Some(
                        pattern(luma[0].has_ac, luma[1].has_ac, luma[2].has_ac, luma[3].has_ac),
                    ),
                    ..macroblock::bare_macroblock(true, ctx.quantiser_before)
                },
            ),
            coder::after_all(d, intra_header_script(luma, cb, cr, inter, inter)),
        ),
{
    let cbpc = pattern(false, false, cb.has_ac, cr.has_ac);
    let cbpy = pattern(luma[0].has_ac, luma[1].has_ac, luma[2].has_ac, luma[3].has_ac);
    let c = Symbol { model: models::cbpy_intra(), index: cbpy as int };
    if inter {
        let a = Symbol { model: models::cod(), index: 0 };
        let b = Symbol { model: models::mcbpc_no4mvq(), index: 12 + cbpc };
        lemma_reads_three(d, a, b, c);
    } else {
        let b = Symbol { model: models::mcbpc_intra(), index: cbpc as int };
        assert(Seq::<Symbol>::empty() + seq![b] + seq![c] =~= seq![b] + seq![c]);
        inverse::lemma_reads_concat(d, seq![b], seq![c]);
        inverse::lemma_reads_one(d, b);
        inverse::lemma_reads_one(coder::after(d, b.model), c);
    }
}

/// A block of an INTRA macroblock is read as it was written.
pub open spec fn intra_block_comes_back(d: Decoding, b: EncodedIntraBlock) -> bool {
    blocks::block_read(d, true, b.has_ac, true).0 == Ok::<(Seq<i16>, nat), Error>(
        (
            blocks::levels_carried(Some(b.dc_level), b.scan@, b.has_ac),
            blocks::events_carried(Some(b.dc_level), b.scan@, b.has_ac),
        ),
    )
}

/// The decoder behind a block of an INTRA macroblock.
pub open spec fn behind_intra_block(d: Decoding, b: EncodedIntraBlock) -> Decoding {
    blocks::block_read(d, true, b.has_ac, true).1
}

/// A block of an INTER macroblock is read as it was written; an empty one is
/// not written.
pub open spec fn inter_block_comes_back(d: Decoding, b: EncodedInterBlock) -> bool {
    b.has_coeffs ==> blocks::block_read(d, false, true, false).0 == Ok::<(Seq<i16>, nat), Error>(
        (b.scan@, blocks::events_carried(None, b.scan@, true)),
    )
}

/// The decoder behind a block of an INTER macroblock.
pub open spec fn behind_inter_block(d: Decoding, b: EncodedInterBlock) -> Decoding {
    if b.has_coeffs {
        blocks::block_read(d, false, true, false).1
    } else {
        d
    }
}

/// Reading the six blocks behind the header of an INTRA macroblock undoes
/// writing them.
pub proof fn intra_blocks_round_trip(
    d: Decoding,
    luma: Seq<EncodedIntraBlock>,
    cb: EncodedIntraBlock,
    cr: EncodedIntraBlock,
    write_cod: bool,
    picture_is_inter: bool,
)
    requires
        luma.len() == 4,
        intra_macroblock_script(luma, cb, cr, write_cod, picture_is_inter).error is None,
        coder::reads(
            d,
            intra_macroblock_script(luma, cb, cr, write_cod, picture_is_inter).symbols,
        ),
    ensures
        ({
            let h = intra_header_script(luma, cb, cr, write_cod, picture_is_inter);
            let d0 = coder::after_all(d, h);
            let d1 = behind_intra_block(d0, luma[0]);
            let d2 = behind_intra_block(d1, luma[1]);
            let d3 = behind_intra_block(d2, luma[2]);
            let d4 = behind_intra_block(d3, luma[3]);
            let d5 = behind_intra_block(d4, cb);
            &&& coder::reads(d, h)
            &&& intra_block_comes_back(d0, luma[0])
            &&& intra_block_comes_back(d1, luma[1])
            &&& intra_block_comes_back(d2, luma[2])
            &&& intra_block_comes_back(d3, luma[3])
            &&& intra_block_comes_back(d4, cb)
            &&& intra_block_comes_back(d5, cr)
            &&& behind_intra_block(d5, cr) == coder::after_all(
                d,
                intra_macroblock_script(luma, cb, cr, write_cod, picture_is_inter).symbols,
            )
        }),
{
    let h = intra_header_script(luma, cb, cr, write_cod, picture_is_inter);
    let s0 = intra_block_script(luma[0]).symbols;
    let s1 = intra_block_script(luma[1]).symbols;
    let s2 = intra_block_script(luma[2]).symbols;
    let s3 = intra_block_script(luma[3]).symbols;
    let s4 = intra_block_script(cb).symbols;
    let s5 = intra_block_script(cr).symbols;
    inverse::lemma_reads_concat(d, h + s0 + s1 + s2 + s3 + s4, s5);
    inverse::lemma_reads_concat(d, h + s0 + s1 + s2 + s3, s4);
    inverse::lemma_reads_concat(d, h + s0 + s1 + s2, s3);
    inverse::lemma_reads_concat(d, h + s0 + s1, s2);
    inverse::lemma_reads_concat(d, h + s0, s1);
    inverse::lemma_reads_concat(d, h, s0);
    lemma_intra_block_back(coder::after_all(d, h), luma[0]);
    lemma_intra_block_back(coder::after_all(d, h + s0), luma[1]);
    lemma_intra_block_back(coder::after_all(d, h + s0 + s1), luma[2]);
    lemma_intra_block_back(coder::after_all(d, h + s0 + s1 + s2), luma[3]);
    lemma_intra_block_back(coder::after_all(d, h + s0 + s1 + s2 + s3), cb);
    lemma_intra_block_back(coder::after_all(d, h + s0 + s1 + s2 + s3 + s4), cr);
}

proof fn lemma_intra_block_back(d: Decoding, b: EncodedIntraBlock)
    requires
        intra_block_script(b).error is None,
        coder::reads(d, intra_block_script(b).symbols),
    ensures
        intra_block_comes_back(d, b),
        behind_intra_block(d, b) == coder::after_all(d, intra_block_script(b).symbols),
{
    blocks::block_round_trips(d, Some(b.dc_level), b.scan@, b.has_ac, true);
}

proof fn lemma_inter_block_back(d: Decoding, b: EncodedInterBlock)
    requires
        inter_block_script(b).error is None,
        coder::reads(d, inter_block_script(b).symbols),
    ensures
        inter_block_comes_back(d, b),
        behind_inter_block(d, b) == coder::after_all(d, inter_block_script(b).symbols),
{
    if b.has_coeffs {
        blocks::block_round_trips(d, None, b.scan@, true, false);
    }
}

/// Reading the blocks behind `header` of an INTER macroblock undoes writing
/// them.
pub proof fn inter_blocks_round_trip(
    d: Decoding,
    header: blocks::Script,
    luma: Seq<EncodedInterBlock>,
    cb: EncodedInterBlock,
    cr: EncodedInterBlock,
)
    requires
        luma.len() == 4,
        inter_blocks_from(header, luma, cb, cr, 0).error is None,
        coder::reads(d, inter_blocks_from(header, luma, cb, cr, 0).symbols),
    ensures
        ({
            let d0 = coder::after_all(d, header.symbols);
            let d1 = behind_inter_block(d0, luma[0]);
            let d2 = behind_inter_block(d1, luma[1]);
            let d3 = behind_inter_block(d2, luma[2]);
            let d4 = behind_inter_block(d3, luma[3]);
            let d5 = behind_inter_block(d4, cb);
            &&& header.error is None
            &&& coder::reads(d, header.symbols)
            &&& inter_block_comes_back(d0, luma[0])
            &&& inter_block_comes_back(d1, luma[1])
            &&& inter_block_comes_back(d2, luma[2])
            &&& inter_block_comes_back(d3, luma[3])
            &&& inter_block_comes_back(d4, cb)
            &&& inter_block_comes_back(d5, cr)
            &&& behind_inter_block(d5, cr) == coder::after_all(
                d,
                inter_blocks_from(header, luma, cb, cr, 0).symbols,
            )
        }),
{
    let h = header.symbols;
    let s0 = inter_block_script(luma[0]).symbols;
    let s1 = inter_block_script(luma[1]).symbols;
    let s2 = inter_block_script(luma[2]).symbols;
    let s3 = inter_block_script(luma[3]).symbols;
    let s4 = inter_block_script(cb).symbols;
    let s5 = inter_block_script(cr).symbols;
    inverse::lemma_reads_concat(d, h + s0 + s1 + s2 + s3 + s4, s5);
    inverse::lemma_reads_concat(d, h + s0 + s1 + s2 + s3, s4);
    inverse::lemma_reads_concat(d, h + s0 + s1 + s2, s3);
    inverse::lemma_reads_concat(d, h + s0 + s1, s2);
    inverse::lemma_reads_concat(d, h + s0, s1);
    inverse::lemma_reads_concat(d, h, s0);
    lemma_inter_block_back(coder::after_all(d, h), luma[0]);
    lemma_inter_block_back(coder::after_all(d, h + s0), luma[1]);
    lemma_inter_block_back(coder::after_all(d, h + s0 + s1), luma[2]);
    lemma_inter_block_back(coder::after_all(d, h + s0 + s1 + s2), luma[3]);
    lemma_inter_block_back(coder::after_all(d, h + s0 + s1 + s2 + s3), cb);
    lemma_inter_block_back(coder::after_all(d, h + s0 + s1 + s2 + s3 + s4), cr);
}

} // verus!
