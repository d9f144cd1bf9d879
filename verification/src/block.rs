//! The block layer: coefficient blocks and the table of coefficient events.
//!
//! A block's coefficients are sent in scan order as events. An event is a run
//! of zeros, the nonzero level behind it, and a flag on the block's last event.
//! The common events have a place in a table; the others are escaped.

use vstd::prelude::*;

verus! {

/// Coefficients in an 8x8 block.
pub const COEFFS_PER_BLOCK: usize = 64;

/// Table index that stands for an escaped event.
pub const TCOEF_ESCAPE_INDEX: usize = 102;

/// One parsed block: its levels in scan order, whether slot 0 came from
/// INTRADC, and how many events filled the rest.
#[derive(Clone, Copy, Debug, PartialEq, Eq)]
pub struct H263Block {
    pub coefficients: [i16; 64],
    pub had_intradc: bool,
    pub tcoef_event_count: u32,
}

impl H263Block {
    /// A block of zeros.
    pub fn empty() -> (b: H263Block)
        ensures
            b.coefficients@ == Seq::new(64, |k: int| 0i16),
            !b.had_intradc,
            b.tcoef_event_count == 0,
    {
        let b = H263Block { coefficients: [0i16; 64], had_intradc: false, tcoef_event_count: 0 };
        assert(b.coefficients@ =~= Seq::new(64, |k: int| 0i16));
        b
    }
}

/// One coefficient event: `run` zeros and then `level`.
#[derive(Clone, Copy, Debug, PartialEq, Eq, Structural)]
pub struct TcoefEvent {
    pub last: bool,
    pub run: u8,
    pub level: i16,
}

/// The largest level magnitude that the table holds behind a run; 0 where the
/// table has no event with that run.
pub open spec fn table_levels(last: bool, run: int) -> int {
    if last {
        if run == 0 {
            3
        } else if run == 1 {
            2
        } else if 2 <= run <= 40 {
            1
        } else {
            0
        }
    } else {
        if run == 0 {
            12
        } else if run == 1 {
            6
        } else if run == 2 {
            4
        } else if 3 <= run <= 6 {
            3
        } else if 7 <= run <= 10 {
            2
        } else if 11 <= run <= 26 {
            1
        } else {
            0
        }
    }
}

/// Table index of the event with level magnitude 1 behind a run: events are
/// sorted by the last flag, then by run, then by level.
pub open spec fn table_start(last: bool, run: int) -> int
    decreases run,
{
    if run <= 0 {
        if last {
            58
        } else {
            0
        }
    } else {
        table_start(last, run - 1) + table_levels(last, run - 1)
    }
}

/// The table holds an event with this run and level magnitude.
pub open spec fn in_table(last: bool, run: int, level: int) -> bool {
    run >= 0 && 1 <= level <= table_levels(last, run)
}

/// Table index of an event that the table holds.
pub open spec fn table_index(last: bool, run: int, level: int) -> int {
    table_start(last, run) + level - 1
}

/// Where the rows of each run begin.
proof fn lemma_table_start(last: bool, run: int)
    requires
        0 <= run <= 40,
        !last ==> run <= 26,
    ensures
        table_start(last, run) == if last {
            if run == 0 {
                58
            } else if run == 1 {
                61
            } else {
                61 + run
            }
        } else {
            if run == 0 {
                0
            } else if run == 1 {
                12
            } else if run == 2 {
                18
            } else if run <= 6 {
                13 + 3 * run
            } else if run <= 10 {
                20 + 2 * run
            } else {
                31 + run
            }
        },
    decreases run,
{
    if run > 0 {
        lemma_table_start(last, run - 1);
    }
}

/// The last flag, run and level magnitude of the event at a table index.
pub open spec fn table_row(index: int) -> (bool, u8, u8) {
    if index < 12 {
        (false, 0, (index + 1) as u8)
    } else if index < 18 {
        (false, 1, (index - 11) as u8)
    } else if index < 22 {
        (false, 2, (index - 17) as u8)
    } else if index < 34 {
        (false, (3 + (index - 22) / 3) as u8, (1 + (index - 22) % 3) as u8)
    } else if index < 42 {
        (false, (7 + (index - 34) / 2) as u8, (1 + (index - 34) % 2) as u8)
    } else if index < 58 {
        (false, (index - 31) as u8, 1)
    } else if index < 61 {
        (true, 0, (index - 57) as u8)
    } else if index < 63 {
        (true, 1, (index - 60) as u8)
    } else {
        (true, (index - 61) as u8, 1)
    }
}

/// The last flag, run and level magnitude of the event at a table index.
pub fn tcoef_table_row(index: usize) -> (row: Option<(bool, u8, u8)>)
    ensures
        row is Some <==> index < TCOEF_ESCAPE_INDEX,
        row matches Some((last, run, level)) ==> in_table(last, run as int, level as int)
            && table_index(last, run as int, level as int) == index,
        row matches Some(r) ==> r == table_row(index as int),
{
    let row: Option<(bool, u8, u8)> = if index < 12 {
        Some((false, 0, (index + 1) as u8))
    } else if index < 18 {
        Some((false, 1, (index - 11) as u8))
    } else if index < 22 {
        Some((false, 2, (index - 17) as u8))
    } else if index < 34 {
        Some((false, (3 + (index - 22) / 3) as u8, (1 + (index - 22) % 3) as u8))
    } else if index < 42 {
        Some((false, (7 + (index - 34) / 2) as u8, (1 + (index - 34) % 2) as u8))
    } else if index < 58 {
        Some((false, (index - 31) as u8, 1))
    } else if index < 61 {
        Some((true, 0, (index - 57) as u8))
    } else if index < 63 {
        Some((true, 1, (index - 60) as u8))
    } else if index < 102 {
        Some((true, (index - 61) as u8, 1))
    } else {
        None
    };
    proof {
        if let Some((last, run, level)) = row {
            lemma_table_start(last, run as int);
        }
    }
    row
}

/// The table index of an event, if the table holds it.
pub fn tcoef_table_index(last: bool, run: u8, level: u8) -> (index: Option<usize>)
    ensures
        index is Some <==> in_table(last, run as int, level as int),
        index matches Some(i) ==> i == table_index(last, run as int, level as int) && i
            < TCOEF_ESCAPE_INDEX,
{
    if level == 0 {
        return None;
    }
    let r: usize = run as usize;
    let start_and_levels: (usize, u8) = if last {
        if r == 0 {
            (58, 3)
        } else if r == 1 {
            (61, 2)
        } else if r <= 40 {
            (61 + r, 1)
        } else {
            (0, 0)
        }
    } else if r == 0 {
        (0, 12)
    } else if r == 1 {
        (12, 6)
    } else if r == 2 {
        (18, 4)
    } else if r <= 6 {
        (13 + 3 * r, 3)
    } else if r <= 10 {
        (20 + 2 * r, 2)
    } else if r <= 26 {
        (31 + r, 1)
    } else {
        (0, 0)
    };
    let (start, levels) = start_and_levels;
    if level <= levels {
        proof {
            lemma_table_start(last, run as int);
        }
        Some(start + (level as usize - 1))
    } else {
        None
    }
}

/// Every table index names one event, and every event in the table has one
/// index.
pub proof fn table_index_is_injective(
    last1: bool,
    run1: int,
    level1: int,
    last2: bool,
    run2: int,
    level2: int,
)
    requires
        in_table(last1, run1, level1),
        in_table(last2, run2, level2),
        table_index(last1, run1, level1) == table_index(last2, run2, level2),
    ensures
        last1 == last2,
        run1 == run2,
        level1 == level2,
{
    lemma_table_start(last1, run1);
    lemma_table_start(last2, run2);
}

/// Table indices are below the escape index.
pub proof fn lemma_index_bound(last: bool, run: int, level: int)
    requires
        in_table(last, run, level),
    ensures
        0 <= table_index(last, run, level) < TCOEF_ESCAPE_INDEX,
{
    lemma_table_start(last, run);
}

/// The events of a block from slot `at` on, `run` zeros having gone before.
pub open spec fn events_from(scan: Seq<i16>, at: int, run: int) -> Seq<(int, int)>
    decreases scan.len() - at,
{
    if at < 0 || at >= scan.len() {
        Seq::empty()
    } else if scan[at] == 0 {
        events_from(scan, at + 1, run + 1)
    } else {
        seq![(run, scan[at] as int)] + events_from(scan, at + 1, 0)
    }
}

/// How many levels from slot `at` on are not zero.
pub open spec fn nonzero_from(scan: Seq<i16>, at: int) -> nat
    decreases scan.len() - at,
{
    if at < 0 || at >= scan.len() {
        0
    } else if scan[at] == 0 {
        nonzero_from(scan, at + 1)
    } else {
        1 + nonzero_from(scan, at + 1)
    }
}

/// A block has one event for each level that is not zero.
pub proof fn every_level_has_an_event(scan: Seq<i16>, at: int, run: int)
    ensures
        events_from(scan, at, run).len() == nonzero_from(scan, at),
    decreases scan.len() - at,
{
    if 0 <= at < scan.len() {
        if scan[at] == 0 {
            every_level_has_an_event(scan, at + 1, run + 1);
        } else {
            every_level_has_an_event(scan, at + 1, 0);
        }
    }
}

/// These events, as run and level pairs, with only the last one flagged.
pub open spec fn are_events(events: Seq<TcoefEvent>, pairs: Seq<(int, int)>) -> bool {
    &&& events.len() == pairs.len()
    &&& forall|k: int|
        0 <= k < events.len() ==> {
            &&& (#[trigger] events[k]).run == pairs[k].0
            &&& events[k].level == pairs[k].1
            &&& events[k].last == (k == events.len() - 1)
        }
}

/// The coefficient events of a block in scan order; `skip_dc` leaves slot 0
/// out.
pub fn tcoef_events(scan: &[i16; 64], skip_dc: bool) -> (events: Vec<TcoefEvent>)
    ensures
        are_events(events@, events_from(scan@, if skip_dc { 1 } else { 0 }, 0)),
        events@.len() <= 64,
{
    let mut events: Vec<TcoefEvent> = Vec::new();
    let start: usize = if skip_dc {
        1
    } else {
        0
    };
    let mut at: usize = start;
    let mut run: u8 = 0;
    let ghost all = events_from(scan@, start as int, 0);
    proof {
        assert(events@.map_values(|e: TcoefEvent| (e.run as int, e.level as int)) + all =~= all);
    }
    while at < 64
        invariant
            start <= at <= 64,
            run <= at,
            events@.len() <= at,
            scan@.len() == 64,
            forall|k: int| 0 <= k < events@.len() ==> !(#[trigger] events@[k]).last,
            events@.map_values(|e: TcoefEvent| (e.run as int, e.level as int)) + events_from(
                scan@,
                at as int,
                run as int,
            ) == all,
        decreases 64 - at,
    {
        let level: i16 = scan[at];
        let ghost f = |e: TcoefEvent| (e.run as int, e.level as int);
        let ghost before = events@.map_values(f);
        if level == 0 {
            run = run + 1;
        } else {
            let ghost e = TcoefEvent { last: false, run, level };
            events.push(TcoefEvent { last: false, run, level });
            proof {
                assert(events@.map_values(f) =~= before + seq![(run as int, level as int)]);
                assert(before + (seq![(run as int, level as int)] + events_from(
                    scan@,
                    at + 1,
                    0,
                )) =~= events@.map_values(f) + events_from(scan@, at + 1, 0));
            }
            run = 0;
        }
        at = at + 1;
    }
    proof {
        let f = |e: TcoefEvent| (e.run as int, e.level as int);
        assert(events@.map_values(f) + Seq::<(int, int)>::empty() =~= events@.map_values(f));
        assert(forall|k: int|
            0 <= k < events@.len() ==> events@.map_values(f)[k] == f(#[trigger] events@[k]));
    }
    let n = events.len();
    if n > 0 {
        let mut e: TcoefEvent = events[n - 1];
        e.last = true;
        events.set(n - 1, e);
    }
    events
}

/// A quantised block that an encoder sends without INTRADC.
#[derive(Clone, Copy, Debug, PartialEq, Eq)]
pub struct EncodedInterBlock {
    /// Levels in scan order.
    pub scan: [i16; 64],
    /// Some level is not zero.
    pub has_coeffs: bool,
}

/// A quantised block that an encoder sends with INTRADC.
#[derive(Clone, Copy, Debug, PartialEq, Eq)]
pub struct EncodedIntraBlock {
    /// INTRADC reconstruction level.
    pub dc_level: i16,
    /// Levels in scan order; slot 0 is carried by `dc_level`.
    pub scan: [i16; 64],
    /// Some level behind slot 0 is not zero.
    pub has_ac: bool,
}

} // verus!
