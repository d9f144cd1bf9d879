//! The block layer with variable-length codes.
//!
//! A block is INTRADC, where it has one, and then coefficient events up to the
//! one that is flagged as the last. Advanced INTRA Coding sends INTRADC as an
//! ordinary coefficient and has its own table of events.

use crate::bits;
use crate::bits::{read_field, read_flag};
use crate::block;
use crate::block::{tcoef_table_row, H263Block, TcoefEvent};
use crate::error::Error;
use crate::vlc;
use crate::vlc::{read_tcoef_aic_code, read_tcoef_code, Code};
use oxideav_core::bits::BitReader;
use vstd::prelude::*;

verus! {

/// Levels in scan order and the number of events that they came in.
pub struct Levels {
    pub levels: Seq<i16>,
    pub events: nat,
}

/// A block of zeros.
pub open spec fn no_levels() -> Seq<i16> {
    Seq::new(64, |k: int| 0i16)
}

/// The last flag, run and level magnitude of the event at an index of the table
/// of Advanced INTRA Coding.
pub open spec fn aic_table_row(index: int) -> (bool, u8, u8) {
    if index < 25 {
        (false, 0, (index + 1) as u8)
    } else if index < 32 {
        (false, 1, (index - 24) as u8)
    } else if index < 40 {
        (false, (2 + (index - 32) / 4) as u8, (1 + (index - 32) % 4) as u8)
    } else if index < 46 {
        (false, (4 + (index - 40) / 3) as u8, (1 + (index - 40) % 3) as u8)
    } else if index < 54 {
        (false, (6 + (index - 46) / 2) as u8, (1 + (index - 46) % 2) as u8)
    } else if index < 58 {
        (false, (index - 44) as u8, 1)
    } else if index < 68 {
        (true, 0, (index - 57) as u8)
    } else if index < 72 {
        (true, 1, (index - 67) as u8)
    } else if index < 78 {
        (true, (2 + (index - 72) / 3) as u8, (1 + (index - 72) % 3) as u8)
    } else if index < 86 {
        (true, (4 + (index - 78) / 2) as u8, (1 + (index - 78) % 2) as u8)
    } else {
        (true, (index - 78) as u8, 1)
    }
}

/// The event behind the escape code at bit `at`: the last flag, the run, and a
/// level of eight bits that is neither 0 nor -128.
pub open spec fn escaped_event_at(s: Seq<bool>, at: int) -> Result<(TcoefEvent, int), Error> {
    match bits::flag_at(s, at) {
        Err(e) => Err(e),
        Ok((last, p)) => match bits::field_at(s, p, 6) {
            Err(e) => Err(e),
            Ok((run, q)) => match bits::field_at(s, q, 8) {
                Err(e) => Err(e),
                Ok((v, end)) => if v == 0 || v == 128 {
                    Err(Error::BadTcoefCode)
                } else {
                    Ok(
                        (
                            TcoefEvent {
                                last,
                                run: run as u8,
                                level: if v < 128 {
                                    v as i16
                                } else {
                                    (v - 256) as i16
                                },
                            },
                            end,
                        ),
                    )
                },
            },
        },
    }
}

/// The coefficient event at bit `at`: a table entry and a sign, or an escape.
pub open spec fn event_at(s: Seq<bool>, at: int, aic: bool) -> Result<(TcoefEvent, int), Error> {
    match (if aic {
        vlc::tcoef_aic_code(s, at)
    } else {
        vlc::tcoef_code(s, at)
    }) {
        Code::Unknown => Err(Error::BadTcoefCode),
        Code::EndOfStream => Err(Error::UnexpectedEof),
        Code::Entry(i, p) => if i == 102 {
            escaped_event_at(s, p)
        } else {
            let (last, run, level) = if aic {
                aic_table_row(i)
            } else {
                block::table_row(i)
            };
            match bits::flag_at(s, p) {
                Err(e) => Err(e),
                Ok((negative, end)) => Ok(
                    (
                        TcoefEvent {
                            last,
                            run,
                            level: if negative {
                                (-level) as i16
                            } else {
                                level as i16
                            },
                        },
                        end,
                    ),
                ),
            }
        },
    }
}

/// The events at bit `at`, where slot `slot` is the next to fill.
pub open spec fn events_at(
    s: Seq<bool>,
    at: int,
    aic: bool,
    so_far: Levels,
    slot: int,
) -> Result<(Levels, int), Error>
    decreases 64 - slot,
{
    match event_at(s, at, aic) {
        Err(e) => Err(e),
        Ok((ev, p)) => {
            let k = slot + ev.run;
            if k >= 64 || slot < 0 {
                Err(Error::BadTcoefRunOverflow)
            } else {
                let next = Levels {
                    levels: so_far.levels.update(k, ev.level),
                    events: so_far.events + 1,
                };
                if ev.last {
                    Ok((next, p))
                } else if k == 63 {
                    Err(Error::BadTcoefRunOverflow)
                } else {
                    events_at(s, p, aic, next, k + 1)
                }
            }
        },
    }
}

/// The reconstruction level of INTRADC at bit `at`.
pub open spec fn intradc_at(s: Seq<bool>, at: int) -> Result<(i16, int), Error> {
    match bits::field_at(s, at, 8) {
        Err(e) => Err(e),
        Ok((v, end)) => if v == 0 || v == 128 {
            Err(Error::BadIntradcCode)
        } else if v == 255 {
            Ok((1024i16, end))
        } else {
            Ok(((8 * v) as i16, end))
        },
    }
}

/// The block at bit `at`.
pub open spec fn block_at(
    s: Seq<bool>,
    at: int,
    has_intradc: bool,
    has_coefficients: bool,
) -> Result<(Levels, int), Error> {
    match (if has_intradc {
        intradc_at(s, at)
    } else {
        Ok((0i16, at))
    }) {
        Err(e) => Err(e),
        Ok((dc, p)) => {
            let start = Levels { levels: no_levels().update(0, dc), events: 0 };
            if has_coefficients {
                events_at(
                    s,
                    p,
                    false,
                    start,
                    if has_intradc {
                        1
                    } else {
                        0
                    },
                )
            } else {
                Ok((start, p))
            }
        },
    }
}

/// The block of Advanced INTRA Coding at bit `at`.
pub open spec fn aic_block_at(s: Seq<bool>, at: int, has_coefficients: bool) -> Result<
    (Levels, int),
    Error,
> {
    let start = Levels { levels: no_levels(), events: 0 };
    if has_coefficients {
        events_at(s, at, true, start, 0)
    } else {
        Ok((start, at))
    }
}

/// `res` is the block that `outcome` tells of.
pub open spec fn block_read(
    outcome: Result<(Levels, int), Error>,
    res: Result<H263Block, Error>,
    before: BitReader,
    after: BitReader,
) -> bool {
    &&& bits::moved_on(before, after)
    &&& match outcome {
        Ok((l, end)) => res matches Ok(b) && b.coefficients@ == l.levels && b.tcoef_event_count
            == l.events && bits::bits_read(after) == end,
        Err(e) => res == Err::<H263Block, Error>(e),
    }
}

/// The levels of a block that has been read are within range.
pub open spec fn levels_in_range(levels: Seq<i16>) -> bool {
    &&& levels.len() == 64
    &&& forall|k: int| 0 <= k < 64 ==> -128 <= #[trigger] levels[k] <= 2040
}

/// The row of the table of Advanced INTRA Coding at an index.
fn aic_row(index: usize) -> (row: (bool, u8, u8))
    requires
        index < 102,
    ensures
        row == aic_table_row(index as int),
        row.2 <= 25,
{
    if index < 25 {
        (false, 0, (index + 1) as u8)
    } else if index < 32 {
        (false, 1, (index - 24) as u8)
    } else if index < 40 {
        (false, (2 + (index - 32) / 4) as u8, (1 + (index - 32) % 4) as u8)
    } else if index < 46 {
        (false, (4 + (index - 40) / 3) as u8, (1 + (index - 40) % 3) as u8)
    } else if index < 54 {
        (false, (6 + (index - 46) / 2) as u8, (1 + (index - 46) % 2) as u8)
    } else if index < 58 {
        (false, (index - 44) as u8, 1)
    } else if index < 68 {
        (true, 0, (index - 57) as u8)
    } else if index < 72 {
        (true, 1, (index - 67) as u8)
    } else if index < 78 {
        (true, (2 + (index - 72) / 3) as u8, (1 + (index - 72) % 3) as u8)
    } else if index < 86 {
        (true, (4 + (index - 78) / 2) as u8, (1 + (index - 78) % 2) as u8)
    } else {
        (true, (index - 78) as u8, 1)
    }
}

/// Read the event behind the escape code.
fn decode_escaped(r: &mut BitReader<'_>) -> (res: Result<TcoefEvent, Error>)
    ensures
        bits::read_as(
            escaped_event_at(bits::stream(*old(r)), bits::bits_read(*old(r)) as int),
            res,
            *old(r),
            *final(r),
        ),
        res matches Ok(e) ==> e.run < 64 && -128 <= e.level <= 127,
{
    proof {
        vstd::arithmetic::power2::lemma2_to64();
    }
    let last: bool = read_flag(r)?;
    let run: u32 = read_field(r, 6)?;
    let v: u32 = read_field(r, 8)?;
    if v == 0 || v == 128 {
        return Err(Error::BadTcoefCode);
    }
    let level: i16 = if v < 128 {
        v as i16
    } else {
        v as i16 - 256
    };
    Ok(TcoefEvent { last, run: run as u8, level })
}

/// Read a coefficient event.
fn decode_event(r: &mut BitReader<'_>, aic: bool) -> (res: Result<TcoefEvent, Error>)
    ensures
        bits::read_as(
            event_at(bits::stream(*old(r)), bits::bits_read(*old(r)) as int, aic),
            res,
            *old(r),
            *final(r),
        ),
        res matches Ok(e) ==> e.run < 64 && -128 <= e.level <= 127,
{
    let e: Option<usize> = if aic {
        read_tcoef_aic_code(r)?
    } else {
        read_tcoef_code(r)?
    };
    let i: usize = match e {
        None => {
            return Err(Error::BadTcoefCode);
        },
        Some(i) => i,
    };
    if i == 102 {
        return decode_escaped(r);
    }
    let (last, run, level): (bool, u8, u8) = if aic {
        aic_row(i)
    } else {
        match tcoef_table_row(i) {
            Some(row) => row,
            None => {
                return Err(Error::BadTcoefCode);
            },
        }
    };
    let negative: bool = read_flag(r)?;
    let signed: i16 = if negative {
        -(level as i16)
    } else {
        level as i16
    };
    Ok(TcoefEvent { last, run, level: signed })
}

/// Read the events of a block into its slots from `start` on.
#[verifier::spinoff_prover]
fn decode_events(r: &mut BitReader<'_>, from: H263Block, start: usize, aic: bool) -> (res: Result<
    H263Block,
    Error,
>)
    requires
        start <= 1,
        from.tcoef_event_count == 0,
        levels_in_range(from.coefficients@),
    ensures
        block_read(
            events_at(
                bits::stream(*old(r)),
                bits::bits_read(*old(r)) as int,
                aic,
                Levels { levels: from.coefficients@, events: 0 },
                start as int,
            ),
            res,
            *old(r),
            *final(r),
        ),
        res matches Ok(b) ==> levels_in_range(b.coefficients@) && b.had_intradc
            == from.had_intradc,
{
    let mut block: H263Block = from;
    let mut slot: usize = start;
    let ghost s = bits::stream(*r);
    let ghost all = events_at(
        s,
        bits::bits_read(*r) as int,
        aic,
        Levels { levels: from.coefficients@, events: 0 },
        start as int,
    );
    loop
        invariant
            slot < 64,
            block.tcoef_event_count <= slot,
            levels_in_range(block.coefficients@),
            block.had_intradc == from.had_intradc,
            s == bits::stream(*old(r)),
            bits::moved_on(*old(r), *r),
            all == events_at(
                s,
                bits::bits_read(*old(r)) as int,
                aic,
                Levels { levels: from.coefficients@, events: 0 },
                start as int,
            ),
            all == events_at(
                s,
                bits::bits_read(*r) as int,
                aic,
                Levels { levels: block.coefficients@, events: block.tcoef_event_count as nat },
                slot as int,
            ),
        decreases 64 - slot,
    {
        let e: TcoefEvent = decode_event(r, aic)?;
        let k: usize = slot + e.run as usize;
        if k >= 64 {
            return Err(Error::BadTcoefRunOverflow);
        }
        block.coefficients[k] = e.level;
        block.tcoef_event_count = block.tcoef_event_count + 1;
        if e.last {
            return Ok(block);
        }
        if k == 63 {
            return Err(Error::BadTcoefRunOverflow);
        }
        slot = k + 1;
    }
}

/// Read INTRADC.
fn decode_intradc(r: &mut BitReader<'_>) -> (res: Result<i16, Error>)
    ensures
        bits::read_as(
            intradc_at(bits::stream(*old(r)), bits::bits_read(*old(r)) as int),
            res,
            *old(r),
            *final(r),
        ),
        res matches Ok(v) ==> 8 <= v <= 2032,
{
    proof {
        vstd::arithmetic::power2::lemma2_to64();
    }
    let v: u32 = read_field(r, 8)?;
    if v == 0 || v == 128 {
        Err(Error::BadIntradcCode)
    } else if v == 255 {
        Ok(1024)
    } else {
        Ok((8 * v) as i16)
    }
}

/// Read a block.
pub fn parse_block(r: &mut BitReader<'_>, has_intradc: bool, has_coefficients: bool) -> (res:
    Result<H263Block, Error>)
    ensures
        block_read(
            block_at(
                bits::stream(*old(r)),
                bits::bits_read(*old(r)) as int,
                has_intradc,
                has_coefficients,
            ),
            res,
            *old(r),
            *final(r),
        ),
        res matches Ok(b) ==> levels_in_range(b.coefficients@) && b.had_intradc == has_intradc,
{
    let mut block: H263Block = H263Block::empty();
    if has_intradc {
        let dc: i16 = decode_intradc(r)?;
        block.coefficients[0] = dc;
        block.had_intradc = true;
    } else {
        assert(no_levels().update(0, 0i16) =~= no_levels());
    }
    if !has_coefficients {
        return Ok(block);
    }
    let start: usize = if has_intradc {
        1
    } else {
        0
    };
    decode_events(r, block, start, false)
}

/// Read a block of Advanced INTRA Coding.
pub fn parse_intra_block_aic(r: &mut BitReader<'_>, has_coefficients: bool) -> (res: Result<
    H263Block,
    Error,
>)
    ensures
        block_read(
            aic_block_at(
                bits::stream(*old(r)),
                bits::bits_read(*old(r)) as int,
                has_coefficients,
            ),
            res,
            *old(r),
            *final(r),
        ),
        res matches Ok(b) ==> levels_in_range(b.coefficients@),
{
    let block: H263Block = H263Block::empty();
    if !has_coefficients {
        return Ok(block);
    }
    decode_events(r, block, 0, true)
}

} // verus!
