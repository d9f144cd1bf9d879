//! Coefficient blocks as arithmetic-coded symbols.

use crate::bits;
use crate::block;
use crate::block::{
    tcoef_events, tcoef_table_index, tcoef_table_row, H263Block, TCOEF_ESCAPE_INDEX,
};
use crate::error::Error;
use crate::sac::coder;
use crate::sac::coder::{Decoding, SacDecoder, SacEncoder, Symbol};
use crate::sac::inverse;
use crate::sac::models;
use crate::sac::syntax;
use crate::sac::syntax::{decode_intradc_sac, encode_intradc_sac, put_symbol};
use vstd::prelude::*;

verus! {

// ---- Coefficient events ----

/// The model of a block's coefficient event number `ordinal`.
pub open spec fn tcoef(ordinal: int, intra: bool) -> Seq<i64> {
    if intra {
        if ordinal == 0 {
            models::tcoef1_intra()
        } else if ordinal == 1 {
            models::tcoef2_intra()
        } else if ordinal == 2 {
            models::tcoef3_intra()
        } else {
            models::tcoefr_intra()
        }
    } else {
        if ordinal == 0 {
            models::tcoef1()
        } else if ordinal == 1 {
            models::tcoef2()
        } else if ordinal == 2 {
            models::tcoef3()
        } else {
            models::tcoefr()
        }
    }
}

/// The model of LAST behind an escape.
pub open spec fn last_model(intra: bool) -> Seq<i64> {
    if intra {
        models::last_intra()
    } else {
        models::last()
    }
}

/// The model of RUN behind an escape.
pub open spec fn run_model(intra: bool) -> Seq<i64> {
    if intra {
        models::run_intra()
    } else {
        models::run()
    }
}

/// The model of LEVEL behind an escape.
pub open spec fn level_model(intra: bool) -> Seq<i64> {
    if intra {
        models::level_intra()
    } else {
        models::level()
    }
}

/// A coefficient event: its flag, its run and its level.
pub struct Event {
    pub last: bool,
    pub run: int,
    pub level: int,
}

/// The level of a LEVEL symbol.
pub open spec fn level_of(index: int) -> int {
    if index <= 126 {
        index - 127
    } else {
        index - 126
    }
}

/// The LEVEL symbol of a level.
pub open spec fn level_index(level: int) -> int {
    if level < 0 {
        level + 127
    } else {
        level + 126
    }
}

/// The flag, run and level magnitude at a table index.
pub open spec fn row_at(index: int) -> (bool, int, int) {
    choose|r: (bool, int, int)|
        #![trigger block::in_table(r.0, r.1, r.2)]
        block::in_table(r.0, r.1, r.2) && block::table_index(r.0, r.1, r.2) == index
}

proof fn lemma_row_at(last: bool, run: int, level: int)
    requires
        block::in_table(last, run, level),
    ensures
        row_at(block::table_index(last, run, level)) == (last, run, level),
{
    let r = (last, run, level);
    assert(block::in_table(r.0, r.1, r.2));
    let q = row_at(block::table_index(last, run, level));
    block::table_index_is_injective(last, run, level, q.0, q.1, q.2);
}

/// The event that a decoder reads as a block's event number `ordinal`.
pub open spec fn event_read(d: Decoding, ordinal: int, intra: bool) -> Event {
    let index = coder::next_symbol(d, tcoef(ordinal, intra));
    let d1 = coder::after(d, tcoef(ordinal, intra));
    if index == TCOEF_ESCAPE_INDEX {
        let d2 = coder::after(d1, last_model(intra));
        let d3 = coder::after(d2, run_model(intra));
        Event {
            last: coder::next_symbol(d1, last_model(intra)) == 1,
            run: coder::next_symbol(d2, run_model(intra)),
            level: level_of(coder::next_symbol(d3, level_model(intra))),
        }
    } else {
        let row = row_at(index);
        Event {
            last: row.0,
            run: row.1,
            level: if coder::next_symbol(d1, models::sign()) == 1 {
                -row.2
            } else {
                row.2
            },
        }
    }
}

/// The decoder behind that event.
pub open spec fn after_event(d: Decoding, ordinal: int, intra: bool) -> Decoding {
    let index = coder::next_symbol(d, tcoef(ordinal, intra));
    let d1 = coder::after(d, tcoef(ordinal, intra));
    if index == TCOEF_ESCAPE_INDEX {
        coder::after(
            coder::after(coder::after(d1, last_model(intra)), run_model(intra)),
            level_model(intra),
        )
    } else {
        coder::after(d1, models::sign())
    }
}

/// The event can be written.
pub open spec fn is_event(e: Event) -> bool {
    &&& e.level != 0
    &&& e.run >= 0
    &&& block::in_table(e.last, e.run, abs(e.level)) || (abs(e.level) <= 127 && e.run <= 63)
}

/// Magnitude.
pub open spec fn abs(x: int) -> int {
    if x < 0 {
        -x
    } else {
        x
    }
}

/// The symbols of a block's event number `ordinal`.
pub open spec fn event_script(ordinal: int, intra: bool, e: Event) -> Seq<Symbol> {
    if block::in_table(e.last, e.run, abs(e.level)) {
        syntax::one(
            tcoef(ordinal, intra),
            block::table_index(e.last, e.run, abs(e.level)),
        ) + syntax::one(
            models::sign(),
            if e.level < 0 {
                1
            } else {
                0
            },
        )
    } else {
        syntax::one(tcoef(ordinal, intra), TCOEF_ESCAPE_INDEX as int) + syntax::one(
            last_model(intra),
            if e.last {
                1
            } else {
                0
            },
        ) + syntax::one(run_model(intra), e.run) + syntax::one(
            level_model(intra),
            level_index(e.level),
        )
    }
}

fn tcoef_model(event_ordinal: u32, mb_is_intra: bool) -> (m: &'static [i64])
    ensures
        m@ == tcoef(event_ordinal as int, mb_is_intra),
        coder::is_model(m@),
        m@.len() == 104,
{
    if mb_is_intra {
        match event_ordinal {
            0 => models::tcoef1_intra_model(),
            1 => models::tcoef2_intra_model(),
            2 => models::tcoef3_intra_model(),
            _ => models::tcoefr_intra_model(),
        }
    } else {
        match event_ordinal {
            0 => models::tcoef1_model(),
            1 => models::tcoef2_model(),
            2 => models::tcoef3_model(),
            _ => models::tcoefr_model(),
        }
    }
}

fn decode_tcoef_event_sac(
    dec: &mut SacDecoder<'_, '_>,
    event_ordinal: u32,
    mb_is_intra: bool,
) -> (res: Result<(bool, u8, i16), Error>)
    requires
        old(dec).wf(),
    ensures
        res matches Ok((last, run, level)) && (Event { last, run: run as int, level: level as int })
            == event_read(old(dec)@, event_ordinal as int, mb_is_intra) && level != 0 && run <= 63,
        final(dec)@ == after_event(old(dec)@, event_ordinal as int, mb_is_intra),
        final(dec).wf(),
        *final(final(dec).reader) == *final(old(dec).reader),
        bits::drained(*old(dec).reader, *final(dec).reader),
{
    let index = dec.decode_symbol(tcoef_model(event_ordinal, mb_is_intra));
    if index == TCOEF_ESCAPE_INDEX {
        let last = dec.decode_symbol(
            if mb_is_intra {
                models::last_intra_model()
            } else {
                models::last_model()
            },
        ) == 1;
        let run: u8 = dec.decode_symbol(
            if mb_is_intra {
                models::run_intra_model()
            } else {
                models::run_model()
            },
        ) as u8;
        let index: usize = dec.decode_symbol(
            if mb_is_intra {
                models::level_intra_model()
            } else {
                models::level_model()
            },
        );
        let level: i16 = if index <= 126 {
            index as i16 - 127
        } else {
            index as i16 - 126
        };
        return Ok((last, run, level));
    }
    let (last, run, magnitude) = match tcoef_table_row(index) {
        Some(row) => row,
        None => return Err(Error::BadTcoefCode),
    };
    proof {
        lemma_row_at(last, run as int, magnitude as int);
    }
    let negative = dec.decode_symbol(models::sign_model()) == 1;
    let level: i16 = if negative {
        -(magnitude as i16)
    } else {
        magnitude as i16
    };
    Ok((last, run, level))
}

fn encode_tcoef_event_sac(
    enc: &mut SacEncoder<'_>,
    event_ordinal: u32,
    mb_is_intra: bool,
    last: bool,
    run: u8,
    level: i16,
) -> (res: Result<(), Error>)
    requires
        old(enc).wf(),
        old(enc).has_room(4),
    ensures
        ({
            let e = Event { last, run: run as int, level: level as int };
            if is_event(e) {
                res is Ok && final(enc)@ == coder::encoded_all(
                    old(enc)@,
                    event_script(event_ordinal as int, mb_is_intra, e),
                )
            } else {
                res == Err::<(), Error>(Error::BadTcoefCode) && final(enc)@ == old(enc)@
            }
        }),
        final(enc).wf(),
        final(enc).opposite_bits <= old(enc).opposite_bits + 64,
        *final(final(enc).writer) == *final(old(enc).writer),
{
    if level == 0 {
        return Err(Error::BadTcoefCode);
    }
    let ghost e0 = enc@;
    let ghost n = event_ordinal as int;
    let model = tcoef_model(event_ordinal, mb_is_intra);
    let magnitude: i32 = if level < 0 {
        -(level as i32)
    } else {
        level as i32
    };
    if magnitude <= 255 {
        if let Some(index) = tcoef_table_index(last, run, magnitude as u8) {
            let sign: usize = if level < 0 {
                1
            } else {
                0
            };
            put_symbol(enc, index, model);
            put_symbol(enc, sign, models::sign_model());
            proof {
                inverse::lemma_encoded_concat(
                    e0,
                    syntax::one(model@, index as int),
                    syntax::one(models::sign(), sign as int),
                );
            }
            return Ok(());
        }
    }
    if level < -127 || level > 127 || run > 63 {
        return Err(Error::BadTcoefCode);
    }
    let last_index: usize = if last {
        1
    } else {
        0
    };
    let level_index: usize = if level < 0 {
        (level + 127) as usize
    } else {
        (level + 126) as usize
    };
    let last_table = if mb_is_intra {
        models::last_intra_model()
    } else {
        models::last_model()
    };
    let run_table = if mb_is_intra {
        models::run_intra_model()
    } else {
        models::run_model()
    };
    let level_table = if mb_is_intra {
        models::level_intra_model()
    } else {
        models::level_model()
    };
    put_symbol(enc, TCOEF_ESCAPE_INDEX, model);
    put_symbol(enc, last_index, last_table);
    put_symbol(enc, run as usize, run_table);
    put_symbol(enc, level_index, level_table);
    proof {
        let a = syntax::one(model@, TCOEF_ESCAPE_INDEX as int);
        let b = syntax::one(last_table@, last_index as int);
        let c = syntax::one(run_table@, run as int);
        let f = syntax::one(level_table@, level_index as int);
        inverse::lemma_encoded_concat(e0, a, b);
        inverse::lemma_encoded_concat(e0, a + b, c);
        inverse::lemma_encoded_concat(e0, a + b + c, f);
    }
    Ok(())
}

/// Reading a coefficient event undoes writing it.
pub proof fn event_round_trips(d: Decoding, ordinal: int, intra: bool, e: Event)
    requires
        is_event(e),
        coder::reads(d, event_script(ordinal, intra, e)),
    ensures
        event_read(d, ordinal, intra) == e,
        after_event(d, ordinal, intra) == coder::after_all(d, event_script(ordinal, intra, e)),
{
    let m = tcoef(ordinal, intra);
    if block::in_table(e.last, e.run, abs(e.level)) {
        let a = Symbol { model: m, index: block::table_index(e.last, e.run, abs(e.level)) };
        let b = Symbol {
            model: models::sign(),
            index: if e.level < 0 {
                1
            } else {
                0
            },
        };
        inverse::lemma_reads_concat(d, seq![a], seq![b]);
        inverse::lemma_reads_one(d, a);
        inverse::lemma_reads_one(coder::after(d, m), b);
        lemma_row_at(e.last, e.run, abs(e.level));
        block::lemma_index_bound(e.last, e.run, abs(e.level));
    } else {
        let a = Symbol { model: m, index: TCOEF_ESCAPE_INDEX as int };
        let b = Symbol {
            model: last_model(intra),
            index: if e.last {
                1
            } else {
                0
            },
        };
        let c = Symbol { model: run_model(intra), index: e.run };
        let f = Symbol { model: level_model(intra), index: level_index(e.level) };
        inverse::lemma_reads_concat(d, seq![a] + seq![b] + seq![c], seq![f]);
        inverse::lemma_reads_concat(d, seq![a] + seq![b], seq![c]);
        inverse::lemma_reads_concat(d, seq![a], seq![b]);
        let d1 = coder::after(d, m);
        let d2 = coder::after(d1, last_model(intra));
        let d3 = coder::after(d2, run_model(intra));
        inverse::lemma_reads_one(d, a);
        inverse::lemma_reads_one(d1, b);
        inverse::lemma_reads_one(d2, c);
        inverse::lemma_reads_one(d3, f);
    }
}

// ---- Blocks ----

/// What a decoder makes of the events of a block: its levels and the number of
/// events, and the decoder behind them. Event number `ordinal` comes next, and
/// its run starts at slot `at`.
pub open spec fn events_read(
    d: Decoding,
    levels: Seq<i16>,
    ordinal: nat,
    at: int,
    intra: bool,
) -> (Result<(Seq<i16>, nat), Error>, Decoding)
    decreases 64 - at,
{
    let e = event_read(d, ordinal as int, intra);
    let behind = after_event(d, ordinal as int, intra);
    let slot = at + e.run;
    let filled = levels.update(slot, e.level as i16);
    if slot >= 64 {
        (Err(Error::BadTcoefRunOverflow), behind)
    } else if e.last {
        (Ok((filled, ordinal + 1)), behind)
    } else if slot + 1 >= 64 || e.run < 0 {
        (Err(Error::BadTcoefRunOverflow), behind)
    } else {
        events_read(behind, filled, ordinal + 1, slot + 1, intra)
    }
}

/// A block of zeros.
pub open spec fn no_levels() -> Seq<i16> {
    Seq::new(64, |k: int| 0i16)
}

/// What a decoder makes of a block, and the decoder behind it.
pub open spec fn block_read(
    d: Decoding,
    has_intradc: bool,
    has_coefficients: bool,
    intra: bool,
) -> (Result<(Seq<i16>, nat), Error>, Decoding) {
    let levels = if has_intradc {
        no_levels().update(
            0,
            syntax::intradc_of(coder::next_symbol(d, models::intradc())) as i16,
        )
    } else {
        no_levels()
    };
    let behind = if has_intradc {
        coder::after(d, models::intradc())
    } else {
        d
    };
    if has_coefficients {
        events_read(
            behind,
            levels,
            0,
            if has_intradc {
                1
            } else {
                0
            },
            intra,
        )
    } else {
        (Ok((levels, 0)), behind)
    }
}

/// Read one block.
pub fn parse_block_sac(
    dec: &mut SacDecoder<'_, '_>,
    has_intradc: bool,
    has_coefficients: bool,
    mb_is_intra: bool,
) -> (res: Result<H263Block, Error>)
    requires
        old(dec).wf(),
    ensures
        ({
            let (read, behind) = block_read(
                old(dec)@,
                has_intradc,
                has_coefficients,
                mb_is_intra,
            );
            &&& final(dec)@ == behind
            &&& match read {
                Ok((levels, count)) => res matches Ok(b) && b.coefficients@ == levels
                    && b.tcoef_event_count == count && b.had_intradc == has_intradc,
                Err(e) => res == Err::<H263Block, Error>(e),
            }
        }),
        final(dec).wf(),
        *final(final(dec).reader) == *final(old(dec).reader),
        bits::drained(*old(dec).reader, *final(dec).reader),
{
    let mut block = H263Block::empty();
    let ghost all = block_read(dec@, has_intradc, has_coefficients, mb_is_intra);
    if has_intradc {
        block.coefficients[0] = decode_intradc_sac(dec);
        block.had_intradc = true;
    }
    if has_coefficients {
        let mut at: usize = if has_intradc {
            1
        } else {
            0
        };
        loop
            invariant_except_break
                block.tcoef_event_count <= at,
                events_read(
                    dec@,
                    block.coefficients@,
                    block.tcoef_event_count as nat,
                    at as int,
                    mb_is_intra,
                ) == all,
            invariant
                at < 64,
                dec.wf(),
                block.coefficients@.len() == 64,
                block.had_intradc == has_intradc,
                all == block_read(old(dec)@, has_intradc, has_coefficients, mb_is_intra),
                *final(dec.reader) == *final(old(dec).reader),
                bits::drained(*old(dec).reader, *dec.reader),
            ensures
                dec.wf(),
                dec@ == all.1,
                block.had_intradc == has_intradc,
                all.0 == Ok::<(Seq<i16>, nat), Error>(
                    (block.coefficients@, block.tcoef_event_count as nat),
                ),
            decreases 64 - at,
        {
            let (last, run, level) = decode_tcoef_event_sac(
                dec,
                block.tcoef_event_count,
                mb_is_intra,
            )?;
            at = at + run as usize;
            if at >= 64 {
                return Err(Error::BadTcoefRunOverflow);
            }
            block.coefficients[at] = level;
            block.tcoef_event_count = block.tcoef_event_count + 1;
            if last {
                break;
            }
            at = at + 1;
            if at >= 64 {
                return Err(Error::BadTcoefRunOverflow);
            }
        }
    }
    Ok(block)
}

/// What is to be written: symbols, and what is wrong with what follows them.
pub struct Script {
    pub symbols: Seq<Symbol>,
    pub error: Option<Error>,
}

/// Symbols with nothing wrong behind them.
pub open spec fn complete(symbols: Seq<Symbol>) -> Script {
    Script { symbols, error: None }
}

/// Nothing can be written.
pub open spec fn refused(e: Error) -> Script {
    Script { symbols: Seq::empty(), error: Some(e) }
}

/// Two strings of symbols, one behind the other; nothing follows an error.
pub open spec fn both(a: Script, b: Script) -> Script {
    match a.error {
        Some(e) => a,
        None => Script { symbols: a.symbols + b.symbols, error: b.error },
    }
}

/// The event that run and level pair number `k` of a block stands for.
pub open spec fn event_in(pairs: Seq<(int, int)>, k: int) -> Event {
    Event { last: k == pairs.len() - 1, run: pairs[k].0, level: pairs[k].1 }
}

/// The symbols of a block's first `n` events.
pub open spec fn events_script(pairs: Seq<(int, int)>, n: nat, intra: bool) -> Script
    decreases n,
{
    if n == 0 {
        complete(Seq::empty())
    } else {
        let e = event_in(pairs, n - 1);
        both(
            events_script(pairs, (n - 1) as nat, intra),
            if is_event(e) {
                complete(event_script(n - 1, intra, e))
            } else {
                refused(Error::BadTcoefCode)
            },
        )
    }
}

/// The symbols of an INTRADC level.
pub open spec fn intradc_script(level: int) -> Script {
    if syntax::is_intradc(level) {
        complete(syntax::one(models::intradc(), syntax::intradc_index(level)))
    } else {
        refused(Error::BadIntradcCode)
    }
}

/// The symbols of a block's coefficients from slot `at` on.
pub open spec fn coefficients_script(scan: Seq<i16>, at: int, intra: bool) -> Script {
    let pairs = block::events_from(scan, at, 0);
    if pairs.len() == 0 {
        refused(Error::BadTcoefCode)
    } else {
        events_script(pairs, pairs.len(), intra)
    }
}

/// The symbols of a block.
pub open spec fn block_script(
    dc_level: Option<i16>,
    scan: Seq<i16>,
    has_coefficients: bool,
    intra: bool,
) -> Script {
    both(
        match dc_level {
            Some(level) => intradc_script(level as int),
            None => complete(Seq::empty()),
        },
        if has_coefficients {
            coefficients_script(
                scan,
                if dc_level is Some {
                    1
                } else {
                    0
                },
                intra,
            )
        } else {
            complete(Seq::empty())
        },
    )
}

/// An encoder has written the symbols of a script, and said what is wrong
/// behind them.
pub open spec fn wrote(
    before: coder::Encoding,
    after: coder::Encoding,
    script: Script,
    res: Result<(), Error>,
) -> bool {
    &&& after == coder::encoded_all(before, script.symbols)
    &&& res == match script.error {
        Some(e) => Err::<(), Error>(e),
        None => Ok(()),
    }
}

/// Write one block; with an INTRADC level, slot 0 of `scan` is not looked at.
pub fn write_block_sac(
    enc: &mut SacEncoder<'_>,
    dc_level: Option<i16>,
    scan: &[i16; 64],
    has_coefficients: bool,
    mb_is_intra: bool,
) -> (res: Result<(), Error>)
    requires
        old(enc).wf(),
        old(enc).has_room(257),
    ensures
        wrote(
            old(enc)@,
            final(enc)@,
            block_script(dc_level, scan@, has_coefficients, mb_is_intra),
            res,
        ),
        final(enc).wf(),
        final(enc).opposite_bits <= old(enc).opposite_bits + 16 * 257,
        *final(final(enc).writer) == *final(old(enc).writer),
{
    let ghost e0 = enc@;
    let ghost script = block_script(dc_level, scan@, has_coefficients, mb_is_intra);
    let ghost mut done = Seq::<Symbol>::empty();
    if let Some(level) = dc_level {
        encode_intradc_sac(enc, level)?;
        proof {
            done = intradc_script(level as int).symbols;
        }
    }
    let ghost head = done;
    if has_coefficients {
        let events = tcoef_events(scan, dc_level.is_some());
        if events.len() == 0 {
            return Err(Error::BadTcoefCode);
        }
        let ghost pairs = block::events_from(
            scan@,
            if dc_level is Some {
                1
            } else {
                0
            },
            0,
        );
        let mut k: usize = 0;
        proof {
            assert(head + Seq::<Symbol>::empty() =~= head);
        }
        while k < events.len()
            invariant
                k <= events.len() <= 64,
                block::are_events(events@, pairs),
                enc.wf(),
                enc.opposite_bits <= old(enc).opposite_bits + 16 + 64 * k,
                old(enc).has_room(257),
                events_script(pairs, k as nat, mb_is_intra).error is None,
                done == head + events_script(pairs, k as nat, mb_is_intra).symbols,
                enc@ == coder::encoded_all(e0, done),
                script == both(complete(head), events_script(pairs, pairs.len(), mb_is_intra)),
                script == block_script(dc_level, scan@, has_coefficients, mb_is_intra),
                e0 == old(enc)@,
                *final(enc.writer) == *final(old(enc).writer),
            decreases events.len() - k,
        {
            let ev = events[k];
            let ghost e = event_in(pairs, k as int);
            let r = encode_tcoef_event_sac(
                enc,
                k as u32,
                mb_is_intra,
                ev.last,
                ev.run,
                ev.level,
            );
            if let Err(err) = r {
                proof {
                    lemma_events_fail(pairs, (k + 1) as nat, pairs.len(), mb_is_intra);
                }
                return Err(err);
            }
            proof {
                let next = event_script(k as int, mb_is_intra, e);
                inverse::lemma_encoded_concat(e0, done, next);
                let so_far = events_script(pairs, k as nat, mb_is_intra).symbols;
                assert(done + next =~= head + (so_far + next));
                done = done + next;
            }
            k = k + 1;
        }
    } else {
        proof {
            assert(head + Seq::<Symbol>::empty() =~= head);
        }
    }
    Ok(())
}

proof fn lemma_events_fail(pairs: Seq<(int, int)>, m: nat, n: nat, intra: bool)
    requires
        m <= n,
        events_script(pairs, m, intra).error is Some,
    ensures
        events_script(pairs, n, intra) == events_script(pairs, m, intra),
    decreases n - m,
{
    if m < n {
        lemma_events_fail(pairs, m, (n - 1) as nat, intra);
    }
}

/// The symbols of a block's events from number `k` on.
spec fn events_tail(pairs: Seq<(int, int)>, k: nat, intra: bool) -> Seq<Symbol>
    decreases pairs.len() - k,
{
    if k >= pairs.len() {
        Seq::empty()
    } else {
        event_script(k as int, intra, event_in(pairs, k as int)) + events_tail(
            pairs,
            k + 1,
            intra,
        )
    }
}

proof fn lemma_events_tail(pairs: Seq<(int, int)>, n: nat, intra: bool)
    requires
        n <= pairs.len(),
        events_script(pairs, n, intra).error is None,
    ensures
        events_script(pairs, n, intra).symbols + events_tail(pairs, n, intra) == events_tail(
            pairs,
            0,
            intra,
        ),
        forall|k: int| 0 <= k < n ==> is_event(#[trigger] event_in(pairs, k)),
    decreases n,
{
    if n == 0 {
        assert(Seq::<Symbol>::empty() + events_tail(pairs, 0, intra) =~= events_tail(
            pairs,
            0,
            intra,
        ));
    } else {
        let m = (n - 1) as nat;
        lemma_events_tail(pairs, m, intra);
        let a = events_script(pairs, m, intra).symbols;
        let b = event_script(m as int, intra, event_in(pairs, m as int));
        let c = events_tail(pairs, n, intra);
        assert((a + b) + c =~= a + (b + c));
    }
}

proof fn lemma_no_more_events(scan: Seq<i16>, at: int, run: int)
    requires
        0 <= at,
        block::events_from(scan, at, run).len() == 0,
    ensures
        forall|j: int| at <= j < scan.len() ==> scan[j] == 0,
    decreases scan.len() - at,
{
    if at < scan.len() {
        lemma_no_more_events(scan, at + 1, run + 1);
    }
}

/// The levels of `scan` from slot `at` on, behind those of `levels`.
spec fn merged(levels: Seq<i16>, scan: Seq<i16>, at: int) -> Seq<i16> {
    Seq::new(
        64,
        |j: int|
            if j >= at {
                scan[j]
            } else {
                levels[j]
            },
    )
}

proof fn lemma_events_back(
    d: Decoding,
    scan: Seq<i16>,
    levels: Seq<i16>,
    at: int,
    run: int,
    pairs: Seq<(int, int)>,
    k: nat,
    intra: bool,
)
    requires
        scan.len() == 64,
        levels.len() == 64,
        0 <= run <= at <= 64,
        k < pairs.len(),
        pairs.skip(k as int) == block::events_from(scan, at, run),
        forall|j: int| k <= j < pairs.len() ==> is_event(#[trigger] event_in(pairs, j)),
        forall|j: int| at <= j < 64 ==> levels[j] == 0,
        coder::reads(d, events_tail(pairs, k, intra)),
    ensures
        events_read(d, levels, k, at - run, intra) == (
            Ok::<(Seq<i16>, nat), Error>((merged(levels, scan, at), pairs.len())),
            coder::after_all(d, events_tail(pairs, k, intra)),
        ),
    decreases 64 - at,
{
    let rest = pairs.skip(k as int);
    if at >= 64 {
        assert(rest.len() == 0);
    } else if scan[at] == 0 {
        lemma_events_back(d, scan, levels, at + 1, run + 1, pairs, k, intra);
        assert(merged(levels, scan, at) =~= merged(levels, scan, at + 1));
    } else {
        let e = event_in(pairs, k as int);
        let more = block::events_from(scan, at + 1, 0);
        assert(rest[0] == pairs[k as int]);
        assert(rest[0] == (run, scan[at] as int));
        assert(pairs.skip(k as int + 1) =~= rest.skip(1));
        assert(rest.skip(1) =~= more);
        let head = event_script(k as int, intra, e);
        let tail = events_tail(pairs, k + 1, intra);
        inverse::lemma_reads_concat(d, head, tail);
        event_round_trips(d, k as int, intra, e);
        let filled = levels.update(at, scan[at]);
        if k == pairs.len() - 1 {
            lemma_no_more_events(scan, at + 1, 0);
            assert(merged(levels, scan, at) =~= filled);
            assert(tail =~= Seq::<Symbol>::empty());
            reveal_with_fuel(coder::after_all, 1);
        } else {
            let behind = after_event(d, k as int, intra);
            assert(more.len() > 0);
            lemma_events_back(behind, scan, filled, at + 1, 0, pairs, k + 1, intra);
            assert(merged(filled, scan, at + 1) =~= merged(levels, scan, at));
        }
    }
}

/// The levels that a written block carries.
pub open spec fn levels_carried(
    dc_level: Option<i16>,
    scan: Seq<i16>,
    has_coefficients: bool,
) -> Seq<i16> {
    let levels = if has_coefficients {
        scan
    } else {
        no_levels()
    };
    match dc_level {
        Some(level) => levels.update(0, level),
        None => levels,
    }
}

/// The coefficient events that a written block carries: one for each level that
/// is not zero, INTRADC left out.
pub open spec fn events_carried(
    dc_level: Option<i16>,
    scan: Seq<i16>,
    has_coefficients: bool,
) -> nat {
    if !has_coefficients {
        0
    } else if dc_level is Some {
        block::nonzero_from(scan, 1)
    } else {
        block::nonzero_from(scan, 0)
    }
}

/// Reading a block undoes writing it, and counts its coefficients.
pub proof fn block_round_trips(
    d: Decoding,
    dc_level: Option<i16>,
    scan: Seq<i16>,
    has_coefficients: bool,
    intra: bool,
)
    requires
        scan.len() == 64,
        block_script(dc_level, scan, has_coefficients, intra).error is None,
        coder::reads(d, block_script(dc_level, scan, has_coefficients, intra).symbols),
    ensures
        ({
            let (read, behind) = block_read(d, dc_level is Some, has_coefficients, intra);
            &&& read == Ok::<(Seq<i16>, nat), Error>(
                (
                    levels_carried(dc_level, scan, has_coefficients),
                    events_carried(dc_level, scan, has_coefficients),
                ),
            )
            &&& behind == coder::after_all(
                d,
                block_script(dc_level, scan, has_coefficients, intra).symbols,
            )
        }),
{
    let script = block_script(dc_level, scan, has_coefficients, intra).symbols;
    let start: int = if dc_level is Some {
        1
    } else {
        0
    };
    let head = match dc_level {
        Some(level) => intradc_script(level as int).symbols,
        None => Seq::empty(),
    };
    let tail = if has_coefficients {
        coefficients_script(scan, start, intra).symbols
    } else {
        Seq::empty()
    };
    assert(script =~= head + tail);
    inverse::lemma_reads_concat(d, head, tail);
    let behind = coder::after_all(d, head);
    let levels = match dc_level {
        Some(level) => no_levels().update(0, level),
        None => no_levels(),
    };
    if let Some(level) = dc_level {
        syntax::intradc_round_trips(d, level as int);
        inverse::lemma_reads_one(
            d,
            Symbol {
                model: models::intradc(),
                index: syntax::intradc_index(level as int),
            },
        );
    }
    if has_coefficients {
        let pairs = block::events_from(scan, start, 0);
        lemma_events_tail(pairs, pairs.len(), intra);
        assert(events_tail(pairs, pairs.len(), intra) =~= Seq::<Symbol>::empty());
        assert(tail =~= events_tail(pairs, 0, intra));
        assert(pairs.skip(0) =~= pairs);
        lemma_events_back(behind, scan, levels, start, 0, pairs, 0, intra);
        block::every_level_has_an_event(scan, start, 0);
        assert(merged(levels, scan, start) =~= levels_carried(dc_level, scan, has_coefficients));
    } else {
        assert(levels =~= levels_carried(dc_level, scan, has_coefficients));
    }
}

proof fn lemma_tcoef(ordinal: int, intra: bool)
    ensures
        coder::is_model(tcoef(ordinal, intra)),
        tcoef(ordinal, intra).len() == 104,
{
    models::lemma_tcoef1();
    models::lemma_tcoef2();
    models::lemma_tcoef3();
    models::lemma_tcoefr();
    models::lemma_tcoef1_intra();
    models::lemma_tcoef2_intra();
    models::lemma_tcoef3_intra();
    models::lemma_tcoefr_intra();
}

/// What stands for an event that can be written are symbols.
proof fn lemma_event_symbols(ordinal: int, intra: bool, e: Event)
    requires
        is_event(e),
    ensures
        coder::are_symbols(event_script(ordinal, intra, e)),
{
    lemma_tcoef(ordinal, intra);
    models::lemma_sign();
    models::lemma_last();
    models::lemma_last_intra();
    models::lemma_run();
    models::lemma_run_intra();
    models::lemma_level();
    models::lemma_level_intra();
    if block::in_table(e.last, e.run, abs(e.level)) {
        block::lemma_index_bound(e.last, e.run, abs(e.level));
    }
}

proof fn lemma_events_symbols(pairs: Seq<(int, int)>, n: nat, intra: bool)
    ensures
        coder::are_symbols(events_script(pairs, n, intra).symbols),
    decreases n,
{
    if n > 0 {
        lemma_events_symbols(pairs, (n - 1) as nat, intra);
        let e = event_in(pairs, n - 1);
        if is_event(e) {
            lemma_event_symbols(n - 1, intra, e);
        }
    }
}

/// What stands for a block are symbols.
proof fn lemma_block_symbols(
    dc_level: Option<i16>,
    scan: Seq<i16>,
    has_coefficients: bool,
    intra: bool,
)
    ensures
        coder::are_symbols(block_script(dc_level, scan, has_coefficients, intra).symbols),
{
    models::lemma_intradc();
    let start: int = if dc_level is Some {
        1
    } else {
        0
    };
    let pairs = block::events_from(scan, start, 0);
    lemma_events_symbols(pairs, pairs.len(), intra);
}

/// What a decoder reads of a block that an encoder has written and flushed, both
/// starting behind `zeros` zeros, is the block, whatever bits come behind.
pub proof fn written_blocks_are_read_back(
    zeros: nat,
    dc_level: Option<i16>,
    scan: Seq<i16>,
    has_coefficients: bool,
    intra: bool,
    behind: Seq<bool>,
)
    requires
        scan.len() == 64,
        block_script(dc_level, scan, has_coefficients, intra).error is None,
    ensures
        ({
            let script = block_script(dc_level, scan, has_coefficients, intra).symbols;
            let d = coder::decoding_at(
                inverse::source_after(zeros, inverse::code_of(zeros, script) + behind),
            );
            block_read(d, dc_level is Some, has_coefficients, intra).0 == Ok::<
                (Seq<i16>, nat),
                Error,
            >(
                (
                    levels_carried(dc_level, scan, has_coefficients),
                    events_carried(dc_level, scan, has_coefficients),
                ),
            )
        }),
{
    let script = block_script(dc_level, scan, has_coefficients, intra).symbols;
    let d = coder::decoding_at(
        inverse::source_after(zeros, inverse::code_of(zeros, script) + behind),
    );
    lemma_block_symbols(dc_level, scan, has_coefficients, intra);
    inverse::decoding_inverts_encoding(zeros, script, behind);
    block_round_trips(d, dc_level, scan, has_coefficients, intra);
}

} // verus!
