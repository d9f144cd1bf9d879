//! Laws of the frequency tables: how much weight each gives its symbols.

use crate::sac::models;
use vstd::prelude::*;

verus! {

/// The sum of entries `from` to `to` of a table, the last one not included.
///
/// Symbol `i` counts in each of entries 1 to `i`, so the sum of these entries is the sum
/// of all symbols, each taken as often as its frequency says.
pub open spec fn weight(c: Seq<i64>, from: int, to: int) -> int
    decreases to - from,
{
    if from >= to {
        0
    } else {
        c[from] + weight(c, from + 1, to)
    }
}

proof fn lemma_join(c: Seq<i64>, from: int, mid: int, to: int)
    requires
        from <= mid <= to,
    ensures
        weight(c, from, to) == weight(c, from, mid) + weight(c, mid, to),
    decreases mid - from,
{
    if from < mid {
        lemma_join(c, from + 1, mid, to);
    }
}

#[verifier::spinoff_prover]
proof fn lemma_cod()
    ensures
        weight(models::cod(), 1, 3) == 6849,
{
    let c = models::cod();
    assert(weight(c, 1, 3) == 6849) by {
        reveal(models::cod);
        reveal_with_fuel(weight, 3);
    }
}

#[verifier::spinoff_prover]
proof fn lemma_mcbpc_no4mvq()
    ensures
        weight(models::mcbpc_no4mvq(), 1, 22) == 19185,
{
    let c = models::mcbpc_no4mvq();
    assert(weight(c, 1, 22) == 19185) by {
        reveal(models::mcbpc_no4mvq);
        reveal_with_fuel(weight, 22);
    }
}

#[verifier::spinoff_prover]
proof fn lemma_mcbpc_intra()
    ensures
        weight(models::mcbpc_intra(), 1, 10) == 20094,
{
    let c = models::mcbpc_intra();
    assert(weight(c, 1, 10) == 20094) by {
        reveal(models::mcbpc_intra);
        reveal_with_fuel(weight, 10);
    }
}

#[verifier::spinoff_prover]
proof fn lemma_cbpy()
    ensures
        weight(models::cbpy(), 1, 17) == 145091,
{
    let c = models::cbpy();
    assert(weight(c, 1, 17) == 145091) by {
        reveal(models::cbpy);
        reveal_with_fuel(weight, 17);
    }
}

#[verifier::spinoff_prover]
proof fn lemma_cbpy_intra()
    ensures
        weight(models::cbpy_intra(), 1, 17) == 165319,
{
    let c = models::cbpy_intra();
    assert(weight(c, 1, 17) == 165319) by {
        reveal(models::cbpy_intra);
        reveal_with_fuel(weight, 17);
    }
}

#[verifier::spinoff_prover]
proof fn lemma_dquant()
    ensures
        weight(models::dquant(), 1, 5) == 24574,
{
    let c = models::dquant();
    assert(weight(c, 1, 5) == 24574) by {
        reveal(models::dquant);
        reveal_with_fuel(weight, 5);
    }
}

#[verifier::spinoff_prover]
proof fn lemma_modb_g()
    ensures
        weight(models::modb_g(), 1, 4) == 8192,
{
    let c = models::modb_g();
    assert(weight(c, 1, 4) == 8192) by {
        reveal(models::modb_g);
        reveal_with_fuel(weight, 4);
    }
}

#[verifier::spinoff_prover]
proof fn lemma_ycbpb()
    ensures
        weight(models::ycbpb(), 1, 3) == 6062,
{
    let c = models::ycbpb();
    assert(weight(c, 1, 3) == 6062) by {
        reveal(models::ycbpb);
        reveal_with_fuel(weight, 3);
    }
}

#[verifier::spinoff_prover]
proof fn lemma_uvcbpb()
    ensures
        weight(models::uvcbpb(), 1, 3) == 491,
{
    let c = models::uvcbpb();
    assert(weight(c, 1, 3) == 491) by {
        reveal(models::uvcbpb);
        reveal_with_fuel(weight, 3);
    }
}

#[verifier::spinoff_prover]
proof fn lemma_mvd()
    ensures
        weight(models::mvd(), 1, 65) == 523270,
{
    let c = models::mvd();
    assert(weight(c, 1, 41) == 521420) by {
        reveal(models::mvd);
        reveal_with_fuel(weight, 41);
    }
    assert(weight(c, 41, 65) == 1850) by {
        reveal(models::mvd);
        reveal_with_fuel(weight, 25);
    }
    lemma_join(c, 1, 41, 65);
}

#[verifier::spinoff_prover]
proof fn lemma_intradc()
    ensures
        weight(models::intradc(), 1, 255) == 1775002,
{
    let c = models::intradc();
    assert(weight(c, 1, 41) == 645614) by {
        reveal(models::intradc);
        reveal_with_fuel(weight, 41);
    }
    assert(weight(c, 41, 81) == 546554) by {
        reveal(models::intradc);
        reveal_with_fuel(weight, 41);
    }
    assert(weight(c, 81, 121) == 401262) by {
        reveal(models::intradc);
        reveal_with_fuel(weight, 41);
    }
    assert(weight(c, 121, 161) == 133048) by {
        reveal(models::intradc);
        reveal_with_fuel(weight, 41);
    }
    assert(weight(c, 161, 201) == 38487) by {
        reveal(models::intradc);
        reveal_with_fuel(weight, 41);
    }
    assert(weight(c, 201, 241) == 9752) by {
        reveal(models::intradc);
        reveal_with_fuel(weight, 41);
    }
    assert(weight(c, 241, 255) == 285) by {
        reveal(models::intradc);
        reveal_with_fuel(weight, 15);
    }
    lemma_join(c, 1, 41, 81);
    lemma_join(c, 1, 81, 121);
    lemma_join(c, 1, 121, 161);
    lemma_join(c, 1, 161, 201);
    lemma_join(c, 1, 201, 241);
    lemma_join(c, 1, 241, 255);
}

#[verifier::spinoff_prover]
proof fn lemma_tcoef1()
    ensures
        weight(models::tcoef1(), 1, 104) == 589864,
{
    let c = models::tcoef1();
    assert(weight(c, 1, 41) == 393590) by {
        reveal(models::tcoef1);
        reveal_with_fuel(weight, 41);
    }
    assert(weight(c, 41, 81) == 186420) by {
        reveal(models::tcoef1);
        reveal_with_fuel(weight, 41);
    }
    assert(weight(c, 81, 104) == 9854) by {
        reveal(models::tcoef1);
        reveal_with_fuel(weight, 24);
    }
    lemma_join(c, 1, 41, 81);
    lemma_join(c, 1, 81, 104);
}

#[verifier::spinoff_prover]
proof fn lemma_tcoef2()
    ensures
        weight(models::tcoef2(), 1, 104) == 543958,
{
    let c = models::tcoef2();
    assert(weight(c, 1, 41) == 376401) by {
        reveal(models::tcoef2);
        reveal_with_fuel(weight, 41);
    }
    assert(weight(c, 41, 81) == 158647) by {
        reveal(models::tcoef2);
        reveal_with_fuel(weight, 41);
    }
    assert(weight(c, 81, 104) == 8910) by {
        reveal(models::tcoef2);
        reveal_with_fuel(weight, 24);
    }
    lemma_join(c, 1, 41, 81);
    lemma_join(c, 1, 81, 104);
}

#[verifier::spinoff_prover]
proof fn lemma_tcoef3()
    ensures
        weight(models::tcoef3(), 1, 104) == 524302,
{
    let c = models::tcoef3();
    assert(weight(c, 1, 41) == 369726) by {
        reveal(models::tcoef3);
        reveal_with_fuel(weight, 41);
    }
    assert(weight(c, 41, 81) == 147139) by {
        reveal(models::tcoef3);
        reveal_with_fuel(weight, 41);
    }
    assert(weight(c, 81, 104) == 7437) by {
        reveal(models::tcoef3);
        reveal_with_fuel(weight, 24);
    }
    lemma_join(c, 1, 41, 81);
    lemma_join(c, 1, 81, 104);
}

#[verifier::spinoff_prover]
proof fn lemma_tcoefr()
    ensures
        weight(models::tcoefr(), 1, 104) == 489593,
{
    let c = models::tcoefr();
    assert(weight(c, 1, 41) == 353867) by {
        reveal(models::tcoefr);
        reveal_with_fuel(weight, 41);
    }
    assert(weight(c, 41, 81) == 129354) by {
        reveal(models::tcoefr);
        reveal_with_fuel(weight, 41);
    }
    assert(weight(c, 81, 104) == 6372) by {
        reveal(models::tcoefr);
        reveal_with_fuel(weight, 24);
    }
    lemma_join(c, 1, 41, 81);
    lemma_join(c, 1, 81, 104);
}

#[verifier::spinoff_prover]
proof fn lemma_tcoef1_intra()
    ensures
        weight(models::tcoef1_intra(), 1, 104) == 365147,
{
    let c = models::tcoef1_intra();
    assert(weight(c, 1, 41) == 230303) by {
        reveal(models::tcoef1_intra);
        reveal_with_fuel(weight, 41);
    }
    assert(weight(c, 41, 81) == 108675) by {
        reveal(models::tcoef1_intra);
        reveal_with_fuel(weight, 41);
    }
    assert(weight(c, 81, 104) == 26169) by {
        reveal(models::tcoef1_intra);
        reveal_with_fuel(weight, 24);
    }
    lemma_join(c, 1, 41, 81);
    lemma_join(c, 1, 81, 104);
}

#[verifier::spinoff_prover]
proof fn lemma_tcoef2_intra()
    ensures
        weight(models::tcoef2_intra(), 1, 104) == 343665,
{
    let c = models::tcoef2_intra();
    assert(weight(c, 1, 41) == 224903) by {
        reveal(models::tcoef2_intra);
        reveal_with_fuel(weight, 41);
    }
    assert(weight(c, 41, 81) == 95375) by {
        reveal(models::tcoef2_intra);
        reveal_with_fuel(weight, 41);
    }
    assert(weight(c, 81, 104) == 23387) by {
        reveal(models::tcoef2_intra);
        reveal_with_fuel(weight, 24);
    }
    lemma_join(c, 1, 41, 81);
    lemma_join(c, 1, 81, 104);
}

#[verifier::spinoff_prover]
proof fn lemma_tcoef3_intra()
    ensures
        weight(models::tcoef3_intra(), 1, 104) == 315511,
{
    let c = models::tcoef3_intra();
    assert(weight(c, 1, 41) == 226766) by {
        reveal(models::tcoef3_intra);
        reveal_with_fuel(weight, 41);
    }
    assert(weight(c, 41, 81) == 78394) by {
        reveal(models::tcoef3_intra);
        reveal_with_fuel(weight, 41);
    }
    assert(weight(c, 81, 104) == 10351) by {
        reveal(models::tcoef3_intra);
        reveal_with_fuel(weight, 24);
    }
    lemma_join(c, 1, 41, 81);
    lemma_join(c, 1, 81, 104);
}

#[verifier::spinoff_prover]
proof fn lemma_tcoefr_intra()
    ensures
        weight(models::tcoefr_intra(), 1, 104) == 347312,
{
    let c = models::tcoefr_intra();
    assert(weight(c, 1, 41) == 258357) by {
        reveal(models::tcoefr_intra);
        reveal_with_fuel(weight, 41);
    }
    assert(weight(c, 41, 81) == 80524) by {
        reveal(models::tcoefr_intra);
        reveal_with_fuel(weight, 41);
    }
    assert(weight(c, 81, 104) == 8431) by {
        reveal(models::tcoefr_intra);
        reveal_with_fuel(weight, 24);
    }
    lemma_join(c, 1, 41, 81);
    lemma_join(c, 1, 81, 104);
}

#[verifier::spinoff_prover]
proof fn lemma_sign()
    ensures
        weight(models::sign(), 1, 3) == 8416,
{
    let c = models::sign();
    assert(weight(c, 1, 3) == 8416) by {
        reveal(models::sign);
        reveal_with_fuel(weight, 3);
    }
}

#[verifier::spinoff_prover]
proof fn lemma_last()
    ensures
        weight(models::last(), 1, 3) == 9469,
{
    let c = models::last();
    assert(weight(c, 1, 3) == 9469) by {
        reveal(models::last);
        reveal_with_fuel(weight, 3);
    }
}

#[verifier::spinoff_prover]
proof fn lemma_last_intra()
    ensures
        weight(models::last_intra(), 1, 3) == 2820,
{
    let c = models::last_intra();
    assert(weight(c, 1, 3) == 2820) by {
        reveal(models::last_intra);
        reveal_with_fuel(weight, 3);
    }
}

#[verifier::spinoff_prover]
proof fn lemma_run()
    ensures
        weight(models::run(), 1, 65) == 297022,
{
    let c = models::run();
    assert(weight(c, 1, 41) == 276980) by {
        reveal(models::run);
        reveal_with_fuel(weight, 41);
    }
    assert(weight(c, 41, 65) == 20042) by {
        reveal(models::run);
        reveal_with_fuel(weight, 25);
    }
    lemma_join(c, 1, 41, 65);
}

#[verifier::spinoff_prover]
proof fn lemma_run_intra()
    ensures
        weight(models::run_intra(), 1, 65) == 60576,
{
    let c = models::run_intra();
    assert(weight(c, 1, 41) == 60300) by {
        reveal(models::run_intra);
        reveal_with_fuel(weight, 41);
    }
    assert(weight(c, 41, 65) == 276) by {
        reveal(models::run_intra);
        reveal_with_fuel(weight, 25);
    }
    lemma_join(c, 1, 41, 65);
}

#[verifier::spinoff_prover]
proof fn lemma_level()
    ensures
        weight(models::level(), 1, 255) == 2069739,
{
    let c = models::level();
    assert(weight(c, 1, 41) == 654500) by {
        reveal(models::level);
        reveal_with_fuel(weight, 41);
    }
    assert(weight(c, 41, 81) == 652900) by {
        reveal(models::level);
        reveal_with_fuel(weight, 41);
    }
    assert(weight(c, 81, 121) == 647675) by {
        reveal(models::level);
        reveal_with_fuel(weight, 41);
    }
    assert(weight(c, 121, 161) == 110293) by {
        reveal(models::level);
        reveal_with_fuel(weight, 41);
    }
    assert(weight(c, 161, 201) == 2940) by {
        reveal(models::level);
        reveal_with_fuel(weight, 41);
    }
    assert(weight(c, 201, 241) == 1340) by {
        reveal(models::level);
        reveal_with_fuel(weight, 41);
    }
    assert(weight(c, 241, 255) == 91) by {
        reveal(models::level);
        reveal_with_fuel(weight, 15);
    }
    lemma_join(c, 1, 41, 81);
    lemma_join(c, 1, 81, 121);
    lemma_join(c, 1, 121, 161);
    lemma_join(c, 1, 161, 201);
    lemma_join(c, 1, 201, 241);
    lemma_join(c, 1, 241, 255);
}

#[verifier::spinoff_prover]
proof fn lemma_level_intra()
    ensures
        weight(models::level_intra(), 1, 255) == 2056477,
{
    let c = models::level_intra();
    assert(weight(c, 1, 41) == 654380) by {
        reveal(models::level_intra);
        reveal_with_fuel(weight, 41);
    }
    assert(weight(c, 41, 81) == 651436) by {
        reveal(models::level_intra);
        reveal_with_fuel(weight, 41);
    }
    assert(weight(c, 81, 121) == 600712) by {
        reveal(models::level_intra);
        reveal_with_fuel(weight, 41);
    }
    assert(weight(c, 121, 161) == 142722) by {
        reveal(models::level_intra);
        reveal_with_fuel(weight, 41);
    }
    assert(weight(c, 161, 201) == 5796) by {
        reveal(models::level_intra);
        reveal_with_fuel(weight, 41);
    }
    assert(weight(c, 201, 241) == 1340) by {
        reveal(models::level_intra);
        reveal_with_fuel(weight, 41);
    }
    assert(weight(c, 241, 255) == 91) by {
        reveal(models::level_intra);
        reveal_with_fuel(weight, 15);
    }
    lemma_join(c, 1, 41, 81);
    lemma_join(c, 1, 81, 121);
    lemma_join(c, 1, 121, 161);
    lemma_join(c, 1, 161, 201);
    lemma_join(c, 1, 201, 241);
    lemma_join(c, 1, 241, 255);
}

/// The sums of all symbols, by frequency, of the tables for macroblock headers, vectors and
/// first levels.
pub proof fn header_tables_have_their_weights()
    ensures
        weight(models::cod(), 1, 3) == 6849,
        weight(models::mcbpc_no4mvq(), 1, 22) == 19185,
        weight(models::mcbpc_intra(), 1, 10) == 20094,
        weight(models::cbpy(), 1, 17) == 145091,
        weight(models::cbpy_intra(), 1, 17) == 165319,
        weight(models::dquant(), 1, 5) == 24574,
        weight(models::modb_g(), 1, 4) == 8192,
        weight(models::ycbpb(), 1, 3) == 6062,
        weight(models::uvcbpb(), 1, 3) == 491,
        weight(models::mvd(), 1, 65) == 523270,
        weight(models::intradc(), 1, 255) == 1775002,
{
    lemma_cod();
    lemma_mcbpc_no4mvq();
    lemma_mcbpc_intra();
    lemma_cbpy();
    lemma_cbpy_intra();
    lemma_dquant();
    lemma_modb_g();
    lemma_ycbpb();
    lemma_uvcbpb();
    lemma_mvd();
    lemma_intradc();
}

/// The sums of all symbols, by frequency, of the tables for coefficients.
pub proof fn event_tables_have_their_weights()
    ensures
        weight(models::tcoef1(), 1, 104) == 589864,
        weight(models::tcoef2(), 1, 104) == 543958,
        weight(models::tcoef3(), 1, 104) == 524302,
        weight(models::tcoefr(), 1, 104) == 489593,
        weight(models::tcoef1_intra(), 1, 104) == 365147,
        weight(models::tcoef2_intra(), 1, 104) == 343665,
        weight(models::tcoef3_intra(), 1, 104) == 315511,
        weight(models::tcoefr_intra(), 1, 104) == 347312,
        weight(models::sign(), 1, 3) == 8416,
        weight(models::last(), 1, 3) == 9469,
        weight(models::last_intra(), 1, 3) == 2820,
        weight(models::run(), 1, 65) == 297022,
        weight(models::run_intra(), 1, 65) == 60576,
        weight(models::level(), 1, 255) == 2069739,
        weight(models::level_intra(), 1, 255) == 2056477,
{
    lemma_tcoef1();
    lemma_tcoef2();
    lemma_tcoef3();
    lemma_tcoefr();
    lemma_tcoef1_intra();
    lemma_tcoef2_intra();
    lemma_tcoef3_intra();
    lemma_tcoefr_intra();
    lemma_sign();
    lemma_last();
    lemma_last_intra();
    lemma_run();
    lemma_run_intra();
    lemma_level();
    lemma_level_intra();
}

} // verus!
