//! Laws of macroblock headers and blocks: what is sent, and what cannot be.

use crate::bits;
use crate::block_layer;
use crate::block_layer::Levels;
use crate::error::Error;
use crate::macroblock::{H263Macroblock, MbContext, MbType};
use crate::macroblock_layer;
use crate::pb_layer::{BpbCodingMode, ModbPresence};
use crate::sac::coder::Decoding;
use crate::sac::macroblocks;
use vstd::prelude::*;

verus! {

/// A header starts from a legal quantiser, and has a field if and only if its type, the modes
/// of the picture or an earlier field call for it. A skipped macroblock has none.
#[verifier::spinoff_prover]
#[verifier::rlimit(60)]
pub proof fn headers_hold_what_is_called_for(s: Seq<bool>, at: int, ctx: MbContext)
    ensures
        ({
            let r = macroblock_layer::macroblock_at(s, at, ctx);
            let mb = r->Ok_0.0;
            let t = mb.mb_type->Some_0;
            let intra = t == MbType::Intra || t == MbType::IntraQ;
            let four = t == MbType::Inter4V || t == MbType::Inter4VQ;
            let changes = t == MbType::InterQ || t == MbType::IntraQ || t == MbType::Inter4VQ;
            let more = four && (ctx.advanced_prediction || ctx.deblocking_filter);
            &&& ctx.quantiser_before == 0 || ctx.quantiser_before > 31 ==> r == Err::<
                (H263Macroblock, int),
                Error,
            >(Error::InvalidQuantiser)
            &&& r is Ok && (!mb.coded || t == MbType::Stuffing) ==> mb.mvd is None && mb.cbpy is None
                && mb.cbpc is None && mb.dquant is None && mb.quantiser_after
                == ctx.quantiser_before
            &&& r is Ok && mb.coded ==> mb.mb_type is Some
            &&& r is Ok && mb.coded && t != MbType::Stuffing ==> {
                &&& mb.cbpc is Some
                &&& mb.cbpy is Some
                &&& mb.mvd is Some <==> !intra || ctx.pb_frames
                &&& mb.mvd2 is Some <==> more
                &&& mb.mvd3 is Some <==> more
                &&& mb.mvd4 is Some <==> more
                &&& mb.dquant is Some <==> changes
                &&& mb.intra_mode is Some <==> intra && ctx.aic_intra_mode
                &&& mb.modb is Some <==> ctx.pb_frames && !ctx.pb_annex_m
                &&& mb.annex_m_modb is Some <==> ctx.pb_frames && ctx.pb_annex_m
                &&& mb.cbpb is Some <==> mb.modb == Some(ModbPresence::CbpbAndMvdb)
                    || mb.annex_m_modb is Some && mb.annex_m_modb->Some_0.has_cbpb
                &&& mb.mvdb is Some <==> mb.modb is Some && mb.modb->Some_0
                    != ModbPresence::Neither || mb.annex_m_modb is Some
                    && mb.annex_m_modb->Some_0.mode == BpbCodingMode::Forward
            }
        }),
{
    reveal(macroblock_layer::macroblock_at);
}

/// The differences of the second, third and fourth vector stand one behind the other.
pub proof fn further_differences_come_in_order(
    mb: H263Macroblock,
    s: Seq<bool>,
    at: int,
    ctx: MbContext,
)
    requires
        mb.mb_type == Some(MbType::Inter4V) || mb.mb_type == Some(MbType::Inter4VQ),
        ctx.advanced_prediction || ctx.deblocking_filter,
        macroblock_layer::then_mvd2_4(Ok((mb, at)), s, ctx) is Ok,
    ensures
        ({
            let (v, end) = macroblock_layer::then_mvd2_4(Ok((mb, at)), s, ctx)->Ok_0;
            let second = macroblock_layer::mvd_at(s, at)->Ok_0;
            let third = macroblock_layer::mvd_at(s, second.1)->Ok_0;
            let fourth = macroblock_layer::mvd_at(s, third.1)->Ok_0;
            &&& v.mvd2 == Some(second.0)
            &&& v.mvd3 == Some(third.0)
            &&& v.mvd4 == Some(fourth.0)
            &&& end == fourth.1
            &&& v.mvd == mb.mvd
        }),
{
}

/// The first level of an INTRA block is eight times its code. The codes with seven zeros at
/// their end are not used; the last code takes the place of the one in the middle.
pub proof fn first_levels_are_eight_times_their_codes(s: Seq<bool>, at: int)
    requires
        0 <= at,
        bits::has_bits(s, at, 8),
    ensures
        ({
            let v = bits::field(s, at, 8) as int;
            let r = block_layer::intradc_at(s, at);
            &&& v % 128 == 0 <==> r == Err::<(i16, int), Error>(Error::BadIntradcCode)
            &&& v % 128 != 0 ==> r is Ok && r->Ok_0.1 == at + 8
            &&& v % 128 != 0 && v < 255 ==> r->Ok_0.0 == 8 * v
            &&& v == 255 ==> r->Ok_0.0 == 8 * 128
        }),
{
    bits::lemma_value_bound(s.subrange(at, at + 8));
    vstd::arithmetic::power2::lemma2_to64();
}

/// An escaped level is neither zero nor the one number whose opposite does not fit.
pub proof fn escaped_levels_have_opposites(s: Seq<bool>, at: int)
    requires
        0 <= at,
        bits::has_bits(s, at, 15),
        bits::field(s, at + 7, 8) == 0 || bits::field(s, at + 7, 8) == 128,
    ensures
        block_layer::escaped_event_at(s, at) is Err,
        block_layer::escaped_event_at(s, at)->Err_0 == Error::BadTcoefCode,
{
}

/// No event reaches behind the last slot, and one that fills it has to be the last.
pub proof fn events_stay_inside_their_block(
    s: Seq<bool>,
    at: int,
    aic: bool,
    so_far: Levels,
    slot: int,
)
    requires
        0 <= slot < 64,
        so_far.levels.len() == 64,
        block_layer::event_at(s, at, aic) is Ok,
    ensures
        ({
            let (e, p) = block_layer::event_at(s, at, aic)->Ok_0;
            let r = block_layer::events_at(s, at, aic, so_far, slot);
            let refused = r == Err::<(Levels, int), Error>(Error::BadTcoefRunOverflow);
            &&& slot + e.run > 63 ==> refused
            &&& slot + e.run == 63 && !e.last ==> refused
            &&& slot + e.run <= 63 && e.last ==> r is Ok && r->Ok_0.1 == p
                && r->Ok_0.0.levels[slot + e.run] == e.level
        }),
{
    reveal_with_fuel(block_layer::events_at, 2);
}

/// Blocks of Advanced INTRA coding have events of a table of their own, from the first slot
/// on; other blocks have events of the other table, behind the first level where there is
/// one.
pub proof fn blocks_have_events_of_their_table(s: Seq<bool>, at: int)
    ensures
        ({
            let a = block_layer::event_at(s, at, true);
            let b = block_layer::event_at(s, at, false);
            let c = block_layer::event_at(s, at + 8, false);
            let plain = block_layer::block_at(s, at, false, true);
            let advanced = block_layer::aic_block_at(s, at, true);
            let intra = block_layer::block_at(s, at, true, true);
            &&& a is Err ==> advanced is Err
            &&& a is Ok && a->Ok_0.0.last && a->Ok_0.0.run < 64 ==> advanced is Ok
                && advanced->Ok_0.1 == a->Ok_0.1 && advanced->Ok_0.0.levels[a->Ok_0.0.run as int]
                == a->Ok_0.0.level
            &&& b is Err ==> plain is Err
            &&& b is Ok && b->Ok_0.0.last && b->Ok_0.0.run < 64 ==> plain is Ok && plain->Ok_0.1
                == b->Ok_0.1 && plain->Ok_0.0.levels[b->Ok_0.0.run as int] == b->Ok_0.0.level
            &&& c is Err ==> intra is Err
            &&& c is Ok && c->Ok_0.0.last && c->Ok_0.0.run < 63 && block_layer::intradc_at(
                s,
                at,
            ) is Ok ==> intra is Ok && intra->Ok_0.1 == c->Ok_0.1
                && intra->Ok_0.0.levels[c->Ok_0.0.run + 1] == c->Ok_0.0.level
        }),
{
    reveal_with_fuel(block_layer::events_at, 2);
}

/// An arithmetic coder refuses headers of modes that it has no table for.
pub proof fn arithmetic_headers_use_few_modes(d: Decoding, ctx: MbContext)
    ensures
        ({
            let r = macroblocks::macroblock_read(d, ctx).0;
            let refused = r == Err::<H263Macroblock, Error>(Error::NotImplemented);
            &&& ctx.aic_intra_mode ==> refused
            &&& ctx.modified_quant ==> refused
            &&& ctx.pb_annex_m ==> refused
            &&& !ctx.aic_intra_mode && !ctx.modified_quant && !ctx.pb_annex_m && (
            ctx.quantiser_before == 0 || ctx.quantiser_before > 31) ==> r == Err::<
                H263Macroblock,
                Error,
            >(Error::InvalidQuantiser)
        }),
{
}

} // verus!
