//! Laws of arithmetic coding: what symbols stand for, and how an interval is
//! shared out among them.

use crate::bits;
use crate::block;
use crate::block::{EncodedInterBlock, EncodedIntraBlock};
use crate::block_layer;
use crate::macroblock::{MbContext, MbType};
use crate::macroblock_layer;
use crate::pb_layer::ModbPresence;
use crate::picture_header::H263PictureCodingType;
use crate::sac::blocks;
use crate::sac::coder;
use crate::sac::coder::Decoding;
use crate::sac::macroblocks;
use crate::sac::models;
use crate::sac::syntax;
use vstd::prelude::*;

verus! {

/// The level of an INTRADC symbol is eight times the number of the symbol,
/// counted from one: levels and symbols rise together, from 8 to 2032, and the
/// symbol of a level is its eighth less one.
pub proof fn intradc_levels_rise_with_their_symbols(index: int, level: int)
    ensures
        0 <= index <= 253 ==> syntax::intradc_of(index) == 8 * index + 8,
        syntax::is_intradc(level) <==> level % 8 == 0 && 8 <= level && level <= 2032,
        syntax::is_intradc(level) ==> 8 * syntax::intradc_index(level) + 8 == level,
        syntax::is_intradc(level) ==> 0 <= syntax::intradc_index(level) <= 253,
{
}

/// A fixed-length INTRADC code of eight bits and the arithmetic-coded symbol that
/// is one less stand for the same level; the code of all ones stands for that of
/// symbol 127, which has no other.
pub proof fn intradc_symbols_are_codes_less_one(s: Seq<bool>, at: int)
    requires
        0 <= at,
        bits::has_bits(s, at, 8),
        bits::field(s, at, 8) != 0,
        bits::field(s, at, 8) != 128,
    ensures
        block_layer::intradc_at(s, at) is Ok,
        ({
            let (level, end) = block_layer::intradc_at(s, at)->Ok_0;
            let code = bits::field(s, at, 8) as int;
            &&& end == at + 8
            &&& code < 255 ==> level == syntax::intradc_of(code - 1) && level == 8 * code
            &&& code == 255 ==> level == syntax::intradc_of(127) && level == 1024
        }),
{
    bits::lemma_value_bound(s.subrange(at, at + 8));
    vstd::arithmetic::power2::lemma2_to64();
}

/// A block that is darker has the smaller INTRADC symbol.
pub proof fn darker_blocks_have_smaller_symbols(d: Decoding, e: Decoding)
    requires
        0 <= coder::next_symbol(d, models::intradc()) <= 253,
        0 <= coder::next_symbol(e, models::intradc()) <= 253,
    ensures
        ({
            let a = syntax::intradc_of(coder::next_symbol(d, models::intradc()));
            let b = syntax::intradc_of(coder::next_symbol(e, models::intradc()));
            a < b <==> coder::next_symbol(d, models::intradc()) < coder::next_symbol(
                e,
                models::intradc(),
            )
        }),
{
}

/// A coded macroblock has the first symbol of COD, a skipped one the second.
pub proof fn coded_macroblocks_have_the_first_symbol()
    ensures
        syntax::cod_script(true).len() == 1,
        syntax::cod_script(true)[0].index == 0,
        syntax::cod_script(false).len() == 1,
        syntax::cod_script(false)[0].index == 1,
{
}

/// MCBPC symbols come in fours: within one macroblock type the four chroma
/// patterns in order, and the types in the order in which MCBPC lists them, with
/// stuffing behind them all.
pub proof fn mcbpc_symbols_come_in_fours(c: u8)
    requires
        c < 4,
    ensures
        syntax::mcbpc_i(c as int) == (MbType::Intra, c),
        syntax::mcbpc_i(4 + c) == (MbType::IntraQ, c),
        syntax::mcbpc_i(8) == (MbType::Stuffing, 0u8),
        syntax::mcbpc_p(c as int) == (MbType::Inter, c),
        syntax::mcbpc_p(4 + c) == (MbType::InterQ, c),
        syntax::mcbpc_p(8 + c) == (MbType::Inter4V, c),
        syntax::mcbpc_p(12 + c) == (MbType::Intra, c),
        syntax::mcbpc_p(16 + c) == (MbType::IntraQ, c),
        syntax::mcbpc_p(20) == (MbType::Stuffing, 0u8),
        syntax::mcbpc_i_index(MbType::Intra, c) == Some(c as int),
        syntax::mcbpc_i_index(MbType::IntraQ, c) == Some(4 + c),
        syntax::mcbpc_p_index(MbType::Inter, c) == Some(c as int),
        syntax::mcbpc_p_index(MbType::InterQ, c) == Some(4 + c),
        syntax::mcbpc_p_index(MbType::Inter4V, c) == Some(8 + c),
        syntax::mcbpc_p_index(MbType::Intra, c) == Some(12 + c),
        syntax::mcbpc_p_index(MbType::IntraQ, c) == Some(16 + c),
{
}

/// A DQUANT symbol is the two-bit code of the same change: the first two make the
/// quantiser finer, by one and by two, and the last two make it coarser.
pub proof fn dquant_symbols_are_their_codes(index: nat)
    requires
        index < 4,
    ensures
        syntax::dquant_of(index as int) == macroblock_layer::dquant_entry(index),
        syntax::dquant_index(syntax::dquant_of(index as int)) == index,
        index < 2 ==> syntax::dquant_of(index as int) == -1 - index,
        index >= 2 ==> syntax::dquant_of(index as int) == index - 1,
{
}

/// MODB symbols announce more and more: nothing, a vector difference, and that
/// with a pattern of blocks.
pub proof fn modb_symbols_announce_more_and_more()
    ensures
        syntax::modb_of(0) == ModbPresence::Neither,
        syntax::modb_of(1) == ModbPresence::MvdbOnly,
        syntax::modb_of(2) == ModbPresence::CbpbAndMvdb,
        syntax::modb_index(ModbPresence::Neither) == 0,
        syntax::modb_index(ModbPresence::MvdbOnly) == 1,
        syntax::modb_index(ModbPresence::CbpbAndMvdb) == 2,
{
}

/// The six symbols of CBPB are its bits, the first block's first.
pub proof fn cbpb_symbols_are_its_bits(d: Decoding)
    ensures
        ({
            let b = syntax::cbpb_bits(d, 6);
            &&& b.len() == 6
            &&& bits::value_of(b) == 32 * bits::bit_value(b[0]) + 16 * bits::bit_value(b[1]) + 8
                * bits::bit_value(b[2]) + 4 * bits::bit_value(b[3]) + 2 * bits::bit_value(b[4])
                + bits::bit_value(b[5])
            &&& b[0] <==> coder::next_symbol(d, models::ycbpb()) == 1
        }),
{
    reveal_with_fuel(bits::value_of, 7);
    let b = syntax::cbpb_bits(d, 6);
    assert(b.drop_last().drop_last().drop_last().drop_last().drop_last().drop_last()
        =~= Seq::<bool>::empty());
}

/// Vector difference symbols rise with the difference: 32 is none, and each step
/// is half a pixel, horizontal before vertical.
pub proof fn vector_symbols_rise_with_the_difference(d: Decoding)
    requires
        0 <= coder::next_symbol(d, models::mvd()) <= 63,
        0 <= coder::next_symbol(coder::after(d, models::mvd()), models::mvd()) <= 63,
    ensures
        macroblocks::mvd_read(d).dx_half + 32 == coder::next_symbol(d, models::mvd()),
        macroblocks::mvd_read(d).dy_half + 32 == coder::next_symbol(
            coder::after(d, models::mvd()),
            models::mvd(),
        ),
{
}

/// The symbols of an escaped level rise with the level, from -127 to 127 without
/// 0.
pub proof fn level_symbols_rise_with_the_level(index: int, level: int)
    ensures
        blocks::level_of(0) == -127,
        blocks::level_of(126) == -1,
        blocks::level_of(127) == 1,
        blocks::level_of(253) == 127,
        0 <= index < 253 && index != 126 ==> blocks::level_of(index + 1) == blocks::level_of(index)
            + 1,
        -127 <= level <= 127 && level != 0 ==> 0 <= blocks::level_index(level) <= 253
            && blocks::level_of(blocks::level_index(level)) == level,
{
}

/// A coefficient event that is not escaped has the sign that its second symbol
/// tells: 0 for a positive level and 1 for a negative one.
pub proof fn sign_symbols_turn_levels_round(d: Decoding, ordinal: int, intra: bool)
    requires
        coder::next_symbol(d, blocks::tcoef(ordinal, intra)) != 102,
    ensures
        ({
            let e = blocks::event_read(d, ordinal, intra);
            let row = blocks::row_at(coder::next_symbol(d, blocks::tcoef(ordinal, intra)));
            let sign = coder::next_symbol(
                coder::after(d, blocks::tcoef(ordinal, intra)),
                models::sign(),
            );
            &&& e.last == row.0
            &&& e.run == row.1
            &&& sign == 0 ==> e.level == row.2
            &&& sign == 1 ==> e.level == -row.2
        }),
{
}

/// Behind the escape symbol come the last flag, the run as it is, and the level.
pub proof fn escaped_events_spell_themselves_out(d: Decoding, ordinal: int, intra: bool)
    requires
        coder::next_symbol(d, blocks::tcoef(ordinal, intra)) == 102,
    ensures
        ({
            let e = blocks::event_read(d, ordinal, intra);
            let d1 = coder::after(d, blocks::tcoef(ordinal, intra));
            let last = if intra {
                models::last_intra()
            } else {
                models::last()
            };
            let run = if intra {
                models::run_intra()
            } else {
                models::run()
            };
            let level = if intra {
                models::level_intra()
            } else {
                models::level()
            };
            let d2 = coder::after(d1, last);
            let d3 = coder::after(d2, run);
            let v = coder::next_symbol(d3, level);
            &&& e.last <==> coder::next_symbol(d1, last) == 1
            &&& e.run == coder::next_symbol(d2, run)
            &&& v < 127 ==> e.level == v - 127
            &&& v >= 127 ==> e.level == v - 126
            &&& blocks::after_event(d, ordinal, intra) == coder::after(d3, level)
        }),
{
}

/// The first three events of a block have tables of their own, and the others
/// share one; INTRA macroblocks have tables of their own throughout.
pub proof fn events_have_their_tables(ordinal: int)
    requires
        3 <= ordinal,
    ensures
        blocks::tcoef(0, false) == models::CUMF_TCOEF1@,
        blocks::tcoef(1, false) == models::CUMF_TCOEF2@,
        blocks::tcoef(2, false) == models::CUMF_TCOEF3@,
        blocks::tcoef(ordinal, false) == models::CUMF_TCOEFR@,
        blocks::tcoef(0, true) == models::CUMF_TCOEF1_INTRA@,
        blocks::tcoef(1, true) == models::CUMF_TCOEF2_INTRA@,
        blocks::tcoef(2, true) == models::CUMF_TCOEF3_INTRA@,
        blocks::tcoef(ordinal, true) == models::CUMF_TCOEFR_INTRA@,
        syntax::cbpy_model(true) == models::CUMF_CBPY_INTRA@,
        syntax::cbpy_model(false) == models::CUMF_CBPY@,
        blocks::last_model(true) == models::CUMF_LAST_INTRA@,
        blocks::last_model(false) == models::CUMF_LAST@,
        blocks::run_model(true) == models::CUMF_RUN_INTRA@,
        blocks::run_model(false) == models::CUMF_RUN@,
        blocks::level_model(true) == models::CUMF_LEVEL_INTRA@,
        blocks::level_model(false) == models::CUMF_LEVEL@,
{
    reveal(models::tcoef1);
    reveal(models::tcoef2);
    reveal(models::tcoef3);
    reveal(models::tcoefr);
    reveal(models::tcoef1_intra);
    reveal(models::tcoef2_intra);
    reveal(models::tcoef3_intra);
    reveal(models::tcoefr_intra);
    reveal(models::cbpy);
    reveal(models::cbpy_intra);
    reveal(models::last);
    reveal(models::last_intra);
    reveal(models::run);
    reveal(models::run_intra);
    reveal(models::level);
    reveal(models::level_intra);
}

/// Every syntax element is coded under the table of its name.
pub proof fn elements_have_their_tables()
    ensures
        models::cod() == models::CUMF_COD@,
        models::mcbpc_no4mvq() == models::CUMF_MCBPC_NO4MVQ@,
        models::mcbpc_intra() == models::CUMF_MCBPC_INTRA@,
        models::cbpy() == models::CUMF_CBPY@,
        models::cbpy_intra() == models::CUMF_CBPY_INTRA@,
        models::dquant() == models::CUMF_DQUANT@,
        models::modb_g() == models::CUMF_MODB_G@,
        models::ycbpb() == models::CUMF_YCBPB@,
        models::uvcbpb() == models::CUMF_UVCBPB@,
        models::mvd() == models::CUMF_MVD@,
        models::intradc() == models::CUMF_INTRADC@,
        models::sign() == models::CUMF_SIGN@,
        models::last() == models::CUMF_LAST@,
        models::last_intra() == models::CUMF_LAST_INTRA@,
        models::run() == models::CUMF_RUN@,
        models::run_intra() == models::CUMF_RUN_INTRA@,
        models::level() == models::CUMF_LEVEL@,
        models::level_intra() == models::CUMF_LEVEL_INTRA@,
{
    reveal(models::cod);
    reveal(models::mcbpc_no4mvq);
    reveal(models::mcbpc_intra);
    reveal(models::cbpy);
    reveal(models::cbpy_intra);
    reveal(models::dquant);
    reveal(models::modb_g);
    reveal(models::ycbpb);
    reveal(models::uvcbpb);
    reveal(models::mvd);
    reveal(models::intradc);
    reveal(models::sign);
    reveal(models::last);
    reveal(models::last_intra);
    reveal(models::run);
    reveal(models::run_intra);
    reveal(models::level);
    reveal(models::level_intra);
}

/// The symbols share an interval out from its top to its bottom without gaps: the
/// first symbol's share reaches to the upper end, each further one begins right
/// below the one before, and the last one's reaches to the lower end.
pub proof fn symbols_share_an_interval_from_the_top(low: int, high: int, c: Seq<i64>, i: int)
    requires
        coder::is_model(c),
        0 <= low <= high,
        0 <= i < c.len() - 1,
    ensures
        coder::share_high(low, high, c, 0) == high,
        coder::share_low(low, high, c, c.len() - 2) == low,
        i + 1 < c.len() - 1 ==> coder::share_high(low, high, c, i + 1) == coder::share_low(
            low,
            high,
            c,
            i,
        ) - 1,
{
    let r = high - low + 1;
    assert(c[0] > c[c.len() - 1]);
    vstd::arithmetic::div_mod::lemma_div_by_multiple(r, c[0] as int);
    assert(r * 0 == 0) by (nonlinear_arith);
    assert(0int / (c[0] as int) == 0) by {
        vstd::arithmetic::div_mod::lemma_div_basics(c[0] as int);
    }
}

/// A symbol's share is as large as its frequency asks for, but for rounding.
pub proof fn shares_follow_the_frequencies(low: int, high: int, c: Seq<i64>, i: int)
    requires
        coder::is_model(c),
        0 <= low <= high,
        0 <= i < c.len() - 1,
    ensures
        ({
            let share = coder::share_high(low, high, c, i) - coder::share_low(low, high, c, i) + 1;
            let exact = (high - low + 1) * (c[i] - c[i + 1]);
            -c[0] < c[0] * share - exact < c[0]
        }),
{
    let r = high - low + 1;
    let t = c[0] as int;
    assert(c[0] > c[c.len() - 1]);
    vstd::arithmetic::div_mod::lemma_fundamental_div_mod(r * c[i], t);
    vstd::arithmetic::div_mod::lemma_fundamental_div_mod(r * c[i + 1], t);
    let a = (r * c[i]) / t;
    let b = (r * c[i + 1]) / t;
    let p = c[i] as int;
    let q = c[i + 1] as int;
    assert(t * (a - b) == t * a - t * b) by (nonlinear_arith);
    assert(r * (p - q) == r * p - r * q) by (nonlinear_arith);
}

/// What is settled of an interval are the leading bits of its numbers: in the
/// lower half the first is 0, in the upper half it is 1, and a bit that was put
/// off comes out as the opposite of the one that settles it.
pub proof fn settled_bits_are_leading_bits(low: int, high: int, pending: nat)
    requires
        0 <= low <= high <= 65535,
    ensures
        ({
            let b = coder::settle(low, high, pending).bits;
            &&& high < 32768 ==> b.len() > pending && !b[0]
            &&& low >= 32768 ==> b.len() > pending && b[0]
            &&& high < 32768 && pending > 0 ==> b[1]
            &&& low >= 32768 && pending > 0 ==> !b[1]
            &&& low < 16384 && high >= 32768 ==> b.len() == 0
            &&& low < 32768 && high >= 49152 ==> b.len() == 0
        }),
{
}

/// A decoder begins with the first sixteen bits as one number, the first bit most
/// significant, and the whole interval.
pub proof fn decoders_begin_with_sixteen_bits(source: coder::Source)
    ensures
        coder::decoding_at(source).low == 0,
        coder::decoding_at(source).high == 65535,
        coder::pulled_bit(source, 0) <==> coder::decoding_at(source).value >= 32768,
{
    let b = coder::pulled_bits(source, 16);
    bits::lemma_value_bound(b);
    vstd::arithmetic::power2::lemma2_to64();
    lemma_first_bit(b, 16);
}

/// The first bit of a number.
proof fn lemma_first_bit(b: Seq<bool>, n: nat)
    requires
        b.len() == n,
        n > 0,
    ensures
        b[0] ==> bits::value_of(b) >= vstd::arithmetic::power2::pow2((n - 1) as nat),
        !b[0] ==> bits::value_of(b) < vstd::arithmetic::power2::pow2((n - 1) as nat),
    decreases n,
{
    if n > 1 {
        lemma_first_bit(b.drop_last(), (n - 1) as nat);
        vstd::arithmetic::power2::lemma_pow2_unfold((n - 1) as nat);
    } else {
        assert(b.drop_last() =~= Seq::<bool>::empty());
        vstd::arithmetic::power2::lemma2_to64();
        reveal_with_fuel(bits::value_of, 2);
    }
}

/// A decoder reads the symbol in whose share its number lies.
pub proof fn numbers_lie_in_the_share_of_their_symbol(d: Decoding, c: Seq<i64>, i: int)
    requires
        coder::is_model(c),
        0 <= i < c.len() - 1,
        0 <= d.low <= d.value <= d.high,
        coder::share_low(d.low, d.high, c, i) <= d.value <= coder::share_high(d.low, d.high, c, i),
    ensures
        coder::points_at(d, c, i),
{
    let r = d.high - d.low + 1;
    let t = c[0] as int;
    let p = c[i] as int;
    let q = c[i + 1] as int;
    let v = d.value - d.low + 1;
    let f = coder::frequency(d, c);
    assert(c[0] > c[c.len() - 1]);
    vstd::arithmetic::div_mod::lemma_fundamental_div_mod(r * p, t);
    vstd::arithmetic::div_mod::lemma_fundamental_div_mod(r * q, t);
    vstd::arithmetic::div_mod::lemma_fundamental_div_mod(v * t - 1, r);
    let a = (r * p) / t;
    let b = (r * q) / t;
    assert(b + 1 <= v <= a);
    // v * t - 1 < r * p, so that the frequency is below p.
    assert(v * t <= r * p) by (nonlinear_arith)
        requires
            v <= a,
            t * a <= r * p,
            t > 0,
    ;
    assert(v * t >= r * q + 1) by (nonlinear_arith)
        requires
            v >= b + 1,
            r * q < t * b + t,
            t > 0,
    ;
    assert(f < p) by (nonlinear_arith)
        requires
            r * f <= v * t - 1,
            v * t <= r * p,
            r > 0,
    ;
    assert(f >= q) by (nonlinear_arith)
        requires
            v * t - 1 < r * f + r,
            v * t >= r * q + 1,
            r > 0,
    ;
}

/// In a P-picture COD comes first, then MCBPC, then CBPY, then the quantiser change
/// of a type that has one, and then the vector difference of a macroblock that is
/// predicted; nothing else in a plain picture.
pub proof fn arithmetic_headers_come_in_order(d: Decoding, ctx: MbContext)
    requires
        ctx.picture_coding_type == H263PictureCodingType::Inter,
        !ctx.aic_intra_mode,
        !ctx.modified_quant,
        !ctx.pb_annex_m,
        !ctx.pb_frames,
        1 <= ctx.quantiser_before <= 31,
    ensures
        ({
            let (r, behind) = macroblocks::macroblock_read(d, ctx);
            let d1 = coder::after(d, models::cod());
            let i = coder::next_symbol(d1, models::mcbpc_no4mvq());
            let d2 = coder::after(d1, models::mcbpc_no4mvq());
            let inter = coder::after(d2, models::cbpy());
            let intra = coder::after(d2, models::cbpy_intra());
            let q = ctx.quantiser_before;
            let coded = coder::next_symbol(d, models::cod()) == 0;
            let mb = r->Ok_0;
            &&& !coded ==> r is Ok && !mb.coded && mb.quantiser_after == q && behind == d1
            &&& coded && 0 <= i < 4 ==> {
                &&& r is Ok
                &&& mb.coded
                &&& mb.mb_type == Some(MbType::Inter)
                &&& mb.cbpc == Some(i as u8)
                &&& mb.cbpy == Some(coder::next_symbol(d2, models::cbpy()) as u8)
                &&& mb.quantiser_after == q
                &&& mb.mvd == Some(macroblocks::mvd_read(inter))
                &&& behind == coder::after(coder::after(inter, models::mvd()), models::mvd())
            }
            &&& coded && 4 <= i < 8 ==> {
                &&& r is Ok
                &&& mb.mb_type == Some(MbType::InterQ)
                &&& mb.cbpc == Some((i - 4) as u8)
                &&& mb.dquant == Some(
                    syntax::dquant_of(coder::next_symbol(inter, models::dquant())) as i8,
                )
                &&& mb.mvd == Some(
                    macroblocks::mvd_read(coder::after(inter, models::dquant())),
                )
            }
            &&& coded && 12 <= i < 16 ==> {
                &&& r is Ok
                &&& mb.mb_type == Some(MbType::Intra)
                &&& mb.cbpc == Some((i - 12) as u8)
                &&& mb.cbpy == Some(coder::next_symbol(d2, models::cbpy_intra()) as u8)
                &&& mb.mvd is None
                &&& behind == intra
            }
            &&& coded && 16 <= i < 20 ==> {
                &&& r is Ok
                &&& mb.mb_type == Some(MbType::IntraQ)
                &&& mb.cbpc == Some((i - 16) as u8)
                &&& mb.mvd is None
                &&& behind == coder::after(intra, models::dquant())
            }
        }),
{
}

/// A written macroblock that is predicted says so first; its chroma pattern counts
/// Cb twice and Cr once on top of the symbol of its type, and its luma pattern names
/// the blocks that are empty, the first one's bit the most significant.
pub proof fn written_patterns_name_their_blocks(
    luma: Seq<EncodedInterBlock>,
    cb: EncodedInterBlock,
    cr: EncodedInterBlock,
    base: int,
)
    requires
        luma.len() == 4,
    ensures
        ({
            let h = macroblocks::inter_header_script(luma, cb, cr, base);
            let v = |b: bool|
                if b {
                    1int
                } else {
                    0
                };
            &&& h.len() == 3
            &&& h[0].model == models::cod() && h[0].index == 0
            &&& h[1].model == models::mcbpc_no4mvq() && h[1].index == base + 2 * v(cb.has_coeffs)
                + v(cr.has_coeffs)
            &&& h[2].model == models::cbpy() && h[2].index == 8 * v(!luma[0].has_coeffs) + 4 * v(
                !luma[1].has_coeffs,
            ) + 2 * v(!luma[2].has_coeffs) + v(!luma[3].has_coeffs)
        }),
{
}

/// A written INTRA macroblock says that it is coded only in a P-picture; its chroma
/// pattern counts Cb twice and Cr once, and its luma pattern names the blocks that
/// have more than their first coefficient.
pub proof fn written_intra_patterns_name_their_blocks(
    luma: Seq<EncodedIntraBlock>,
    cb: EncodedIntraBlock,
    cr: EncodedIntraBlock,
)
    requires
        luma.len() == 4,
    ensures
        ({
            let i = macroblocks::intra_header_script(luma, cb, cr, false, false);
            let p = macroblocks::intra_header_script(luma, cb, cr, true, true);
            let v = |b: bool|
                if b {
                    1int
                } else {
                    0
                };
            let chroma = 2 * v(cb.has_ac) + v(cr.has_ac);
            let pattern = 8 * v(luma[0].has_ac) + 4 * v(luma[1].has_ac) + 2 * v(luma[2].has_ac) + v(
                luma[3].has_ac,
            );
            &&& i.len() == 2
            &&& i[0].model == models::mcbpc_intra() && i[0].index == chroma
            &&& i[1].model == models::cbpy_intra() && i[1].index == pattern
            &&& p.len() == 3
            &&& p[0].model == models::cod() && p[0].index == 0
            &&& p[1].model == models::mcbpc_no4mvq() && p[1].index == 12 + chroma
            &&& p[2].model == models::cbpy_intra() && p[2].index == pattern
        }),
{
}

/// An arithmetic-coded event fills one slot, as many slots further on as its run
/// says. If it is the last, the block ends there; else the next event goes on right
/// behind.
pub proof fn arithmetic_runs_skip_slots(
    d: Decoding,
    levels: Seq<i16>,
    ordinal: nat,
    slot: int,
    intra: bool,
)
    requires
        0 <= slot < 64,
        levels.len() == 64,
        0 <= blocks::event_read(d, ordinal as int, intra).run,
    ensures
        ({
            let e = blocks::event_read(d, ordinal as int, intra);
            let behind = blocks::after_event(d, ordinal as int, intra);
            let (r, end) = blocks::events_read(d, levels, ordinal, slot, intra);
            let k = slot + e.run;
            &&& k < 64 && e.last ==> {
                &&& end == behind
                &&& r is Ok
                &&& r->Ok_0.1 == ordinal + 1
                &&& r->Ok_0.0.len() == 64
                &&& r->Ok_0.0[k] == e.level as i16
                &&& forall|i: int| 0 <= i < 64 && i != k ==> #[trigger] r->Ok_0.0[i] == levels[i]
            }
            &&& k < 63 && !e.last ==> (r, end) == blocks::events_read(
                behind,
                levels.update(k, e.level as i16),
                ordinal + 1,
                k + 1,
                intra,
            )
            &&& k >= 64 ==> r is Err
        }),
{
}

/// The first event of a block, from a slot on, is the first level there that is not
/// zero, with the number of zeros in front of it.
pub proof fn events_count_zeros_in_front(scan: Seq<i16>, at: int, zeros: int, before: int)
    requires
        0 <= at,
        0 <= zeros,
        at + zeros < scan.len(),
        forall|i: int| at <= i < at + zeros ==> #[trigger] scan[i] == 0,
        scan[at + zeros] != 0,
    ensures
        block::events_from(scan, at, before).len() > 0,
        block::events_from(scan, at, before)[0] == (before + zeros, scan[at + zeros] as int),
        block::events_from(scan, at, before).skip(1) == block::events_from(scan, at + zeros + 1, 0),
    decreases zeros,
{
    if zeros > 0 {
        assert(scan[at] == 0);
        events_count_zeros_in_front(scan, at + 1, zeros - 1, before + 1);
    } else {
        let rest = block::events_from(scan, at + 1, 0);
        assert((seq![(before, scan[at] as int)] + rest).skip(1) =~= rest);
    }
}

/// Behind fourteen zeros in a row a one is put in, and taken out again on the other
/// side.
pub proof fn fourteen_zeros_bring_a_one(s: coder::Sink, bit: bool)
    ensures
        bit ==> coder::put(s, bit).out == s.out.push(true) && coder::put(s, bit).zeros == 0,
        !bit && s.zeros == 13 ==> coder::put(s, bit).out == s.out.push(false).push(true),
        !bit && s.zeros < 13 ==> coder::put(s, bit).out == s.out.push(false) && coder::put(
            s,
            bit,
        ).zeros == s.zeros + 1,
{
}

} // verus!
