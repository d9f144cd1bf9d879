//! Pictures that are divided into slices.
//!
//! A slice is a run of macroblocks in the order of the picture. It starts at
//! the address in its header and goes on to the next slice's start code or the
//! picture's end. Slices come in the order of their addresses, and every
//! macroblock belongs to exactly one of them.

use super::deblocking;
use super::frame;
use super::frame::{DecodeOptions, YuvFrame};
use super::gobs;
use super::gobs::{finish_picture, set_up, start_picture};
use super::layout::PictureLayout;
use super::macroblocks;
use super::macroblocks::MbPlace;
use super::walk;
use super::walk::{decode_macroblock_at, PictureJob, PictureState};
use crate::bits;
use crate::bits::read_field;
use crate::error::Error;
use crate::picture_header::{H263PictureCodingType, H263PictureHeader};
use crate::plus_ptype::SliceStructuredSubmode;
use crate::slice_header;
use crate::slice_header::{
    at_slice_boundary, parse_first_slice_header, parse_slice_layer, skip_sstuf, SliceStart,
};
use oxideav_core::bits::BitReader;
use vstd::prelude::*;

verus! {

/// The place of a macroblock of slice `segment`.
pub open spec fn slice_place(addr: int, cols: int, segment: int) -> MbPlace {
    MbPlace {
        col: (addr % cols) as usize,
        row: (addr / cols) as usize,
        gob_top_row: (addr / cols) as usize,
        gob_header_present: false,
        segment: segment as u32,
    }
}

/// A picture as far as it is decoded, and which of its macroblocks are.
pub struct Covered {
    pub progress: walk::Progress,
    pub done: Seq<bool>,
    /// The address behind the last macroblock.
    pub next: int,
}

/// A picture as far as it is decoded, and the bit behind that.
pub type SliceStep = Result<(Covered, int), Error>;

/// The picture with the macroblocks of a slice from address `addr` on.
pub open spec fn with_slice_from(
    s: Seq<bool>,
    at: int,
    job: walk::Job,
    p: walk::Progress,
    done: Seq<bool>,
    addr: int,
    segment: int,
) -> SliceStep
    decreases job.cols * job.rows - addr,
{
    let count = job.cols * job.rows;
    if done[addr] {
        Err(Error::BadSliceCoverage)
    } else {
        match walk::with_macroblock(s, at, job, p, slice_place(addr, job.cols, segment)) {
            Err(e) => Err(e),
            Ok((q, end)) => {
                let covered = Covered {
                    progress: q,
                    done: done.update(addr, true),
                    next: addr + 1,
                };
                if addr + 1 >= count {
                    Ok((covered, end))
                } else {
                    match slice_header::slice_boundary_at(s, end) {
                        Err(e) => Err(e),
                        Ok(boundary) => if boundary {
                            Ok((covered, end))
                        } else {
                            with_slice_from(s, end, job, q, covered.done, addr + 1, segment)
                        },
                    }
                }
            },
        }
    }
}

/// How many addresses can follow that of the slice before.
pub open spec fn addresses_left(count: int, prev: Option<u32>) -> int {
    match prev {
        Some(q) => count - q,
        None => count + 1,
    }
}

/// The picture with the slices from that with address `mba` on; `prev` is the
/// address of the slice before.
pub open spec fn with_slices_from(
    s: Seq<bool>,
    at: int,
    job: walk::Job,
    p: walk::Progress,
    done: Seq<bool>,
    start: SliceStart,
    prev: Option<u32>,
    segment: int,
) -> SliceStep
    decreases addresses_left(job.cols * job.rows, prev),
{
    let count = job.cols * job.rows;
    if prev matches Some(q) && start.mba <= q {
        Err(Error::BadSliceCoverage)
    } else if start.mba >= count {
        Err(Error::SliceMbaOutOfRange)
    } else {
        match with_slice_from(
            s,
            at,
            job,
            walk::Progress { quant: start.squant, ..p },
            done,
            start.mba as int,
            segment,
        ) {
            Err(e) => Err(e),
            Ok((c, end)) => if c.next >= count {
                Ok((c, end))
            } else {
                match slice_header::stuffing_at(s, end) {
                    Err(e) => Err(e),
                    Ok((_, aligned)) => match slice_header::slice_at(s, aligned, count) {
                        Err(e) => Err(e),
                        Ok((next, body)) => with_slices_from(
                            s,
                            body,
                            job,
                            c.progress,
                            c.done,
                            next,
                            Some(start.mba),
                            segment + 1,
                        ),
                    },
                }
            },
        }
    }
}

/// All macroblocks of a picture are decoded.
pub open spec fn all_done(done: Seq<bool>) -> bool {
    forall|i: int| 0 <= i < done.len() ==> #[trigger] done[i]
}

/// A picture of slices is refused before anything of it is read.
pub open spec fn slices_refused(
    header: H263PictureHeader,
    layout: PictureLayout,
    sss: SliceStructuredSubmode,
    reference: Option<frame::Planes>,
) -> bool {
    header.sac_mode || header.pb_frames || header.advanced_prediction || sss.rectangular
        || !gobs::reference_serves(header, layout, reference)
}

/// The reference is stored without gaps, if the picture looks at it: it does not
/// where it is INTRA or refused, as one with a reference of another size is.
pub open spec fn reference_sound(
    header: H263PictureHeader,
    layout: PictureLayout,
    sss: SliceStructuredSubmode,
    reference: Option<frame::Planes>,
) -> bool {
    header.coding_type == H263PictureCodingType::Inter && !slices_refused(
        header,
        layout,
        sss,
        reference,
    ) ==> (reference matches Some(f) ==> f.stored())
}

/// The picture with all its slices; its quantiser stands at bit `at`.
pub open spec fn all_slices(s: Seq<bool>, at: int, job: walk::Job) -> SliceStep {
    let count = job.cols * job.rows;
    match bits::field_at(s, at, 5) {
        Err(e) => Err(e),
        Ok((quant, p1)) => if quant == 0 {
            Err(Error::SliceMbaOutOfRange)
        } else {
            match slice_header::first_slice_at(s, p1, count) {
                Err(e) => Err(e),
                Ok((mba, p2)) => with_slices_from(
                    s,
                    p2,
                    job,
                    gobs::blank(job),
                    Seq::new(count as nat, |i: int| false),
                    SliceStart { mba, squant: quant as u8 },
                    None,
                    0,
                ),
            }
        },
    }
}

/// The picture whose quantiser stands at bit `at`, with its slices behind it.
pub open spec fn sliced_picture(
    s: Seq<bool>,
    at: int,
    header: H263PictureHeader,
    layout: PictureLayout,
    sss: SliceStructuredSubmode,
    reference: Option<frame::Planes>,
    options: DecodeOptions,
) -> Result<frame::Planes, Error> {
    let job = gobs::job_of(header, layout, reference, options, None);
    if slices_refused(header, layout, sss, reference) {
        Err(Error::NotImplemented)
    } else {
        match all_slices(s, at, job) {
            Err(e) => Err(e),
            Ok((c, _)) => if all_done(c.done) {
                Ok(gobs::finished(c.progress, options))
            } else {
                Err(Error::BadSliceCoverage)
            },
        }
    }
}

/// The quantisers of all decoded macroblocks are set.
pub open spec fn set_where_done(quants: Seq<u8>, done: Seq<bool>) -> bool {
    &&& quants.len() == done.len()
    &&& forall|i: int| 0 <= i < done.len() && done[i] ==> 1 <= #[trigger] quants[i] <= 31
}

/// An address stands for a place inside the picture.
pub proof fn lemma_address(addr: int, cols: int, rows: int)
    requires
        0 <= addr < cols * rows,
        0 < cols,
    ensures
        0 <= addr % cols < cols,
        0 <= addr / cols < rows,
        (addr / cols) * cols + addr % cols == addr,
{
    vstd::arithmetic::div_mod::lemma_fundamental_div_mod(addr, cols);
    vstd::arithmetic::div_mod::lemma_multiply_divide_lt(addr, cols, rows);
    assert(cols * (addr / cols) == (addr / cols) * cols) by (nonlinear_arith);
    assert(0 <= addr / cols) by (nonlinear_arith)
        requires
            0 <= addr,
            0 < cols,
    ;
}

/// `res`, the state and the coverage are what `outcome` tells of.
pub open spec fn covered_as(
    outcome: SliceStep,
    res: Result<usize, Error>,
    after: walk::Progress,
    done: Seq<bool>,
    r0: BitReader,
    r1: BitReader,
) -> bool {
    &&& bits::moved_on(r0, r1)
    &&& match outcome {
        Ok((c, end)) => {
            &&& res matches Ok(next) && next == c.next
            &&& after == c.progress
            &&& done == c.done
            &&& bits::bits_read(r1) == end
        },
        Err(e) => res == Err::<usize, Error>(e),
    }
}

/// Decode the macroblocks of a slice, and give the address behind them.
#[verifier::spinoff_prover]
fn decode_slice(
    r: &mut BitReader<'_>,
    job: &PictureJob<'_>,
    st: &mut PictureState,
    done: &mut Vec<bool>,
    first: usize,
    segment: u32,
) -> (res: Result<usize, Error>)
    requires
        old(st)@.fits(job@),
        set_where_done(old(st)@.quants, old(done)@),
        first < job.mb_cols * job.mb_rows,
    ensures
        covered_as(
            with_slice_from(
                bits::stream(*old(r)),
                bits::bits_read(*old(r)) as int,
                job@,
                old(st)@,
                old(done)@,
                first as int,
                segment as int,
            ),
            res,
            final(st)@,
            final(done)@,
            *old(r),
            *final(r),
        ),
        res is Ok ==> final(st)@.fits(job@),
        res is Ok ==> set_where_done(final(st)@.quants, final(done)@),
{
    let ghost s = bits::stream(*r);
    let ghost whole = with_slice_from(
        s,
        bits::bits_read(*r) as int,
        job@,
        st@,
        done@,
        first as int,
        segment as int,
    );
    let cols: usize = job.mb_cols;
    let count: usize = st.quants.len();
    let mut addr: usize = first;
    loop
        invariant
            cols == job.mb_cols,
            count == job.mb_cols * job.mb_rows,
            addr < count,
            s == bits::stream(*old(r)),
            bits::moved_on(*old(r), *r),
            st@.fits(job@),
            set_where_done(st@.quants, done@),
            whole == with_slice_from(
                s,
                bits::bits_read(*old(r)) as int,
                job@,
                old(st)@,
                old(done)@,
                first as int,
                segment as int,
            ),
            whole == with_slice_from(
                s,
                bits::bits_read(*r) as int,
                job@,
                st@,
                done@,
                addr as int,
                segment as int,
            ),
        decreases count - addr,
    {
        if done[addr] {
            return Err(Error::BadSliceCoverage);
        }
        proof {
            lemma_address(addr as int, cols as int, job.mb_rows as int);
        }
        let place: MbPlace = MbPlace {
            col: addr % cols,
            row: addr / cols,
            gob_top_row: addr / cols,
            gob_header_present: false,
            segment,
        };
        assert(place == slice_place(addr as int, cols as int, segment as int));
        decode_macroblock_at(r, job, st, place)?;
        done.set(addr, true);
        addr = addr + 1;
        if addr >= count {
            return Ok(addr);
        }
        if at_slice_boundary(r)? {
            return Ok(addr);
        }
    }
}

/// Decode the slices of a picture.
#[verifier::spinoff_prover]
fn decode_slices(
    r: &mut BitReader<'_>,
    job: &PictureJob<'_>,
    st: &mut PictureState,
    done: &mut Vec<bool>,
    first: SliceStart,
) -> (res: Result<usize, Error>)
    requires
        old(st)@.fits(job@),
        set_where_done(old(st)@.quants, old(done)@),
        job.mb_cols * job.mb_rows <= 0x10_0000,
    ensures
        covered_as(
            with_slices_from(
                bits::stream(*old(r)),
                bits::bits_read(*old(r)) as int,
                job@,
                old(st)@,
                old(done)@,
                first,
                None,
                0,
            ),
            res,
            final(st)@,
            final(done)@,
            *old(r),
            *final(r),
        ),
        res is Ok ==> final(st)@.fits(job@),
        res is Ok ==> set_where_done(final(st)@.quants, final(done)@),
{
    let ghost s = bits::stream(*r);
    let ghost whole = with_slices_from(
        s,
        bits::bits_read(*r) as int,
        job@,
        st@,
        done@,
        first,
        None,
        0,
    );
    let count: usize = st.quants.len();
    let mut start: SliceStart = first;
    let mut prev: Option<u32> = None;
    let mut segment: u32 = 0;
    loop
        invariant
            count == job.mb_cols * job.mb_rows,
            count <= 0x10_0000,
            match prev {
                Some(q) => segment <= q + 1 && q < count,
                None => segment == 0,
            },
            s == bits::stream(*old(r)),
            bits::moved_on(*old(r), *r),
            st@.fits(job@),
            set_where_done(st@.quants, done@),
            whole == with_slices_from(
                s,
                bits::bits_read(*old(r)) as int,
                job@,
                old(st)@,
                old(done)@,
                first,
                None,
                0,
            ),
            whole == with_slices_from(
                s,
                bits::bits_read(*r) as int,
                job@,
                st@,
                done@,
                start,
                prev,
                segment as int,
            ),
        decreases addresses_left(count as int, prev),
    {
        if let Some(q) = prev {
            if start.mba <= q {
                return Err(Error::BadSliceCoverage);
            }
        }
        if start.mba as usize >= count {
            return Err(Error::SliceMbaOutOfRange);
        }
        let ghost p = st@;
        st.quant = start.squant;
        assert(st@ == walk::Progress { quant: start.squant, ..p });
        let next: usize = decode_slice(r, job, st, done, start.mba as usize, segment)?;
        if next >= count {
            return Ok(next);
        }
        skip_sstuf(r)?;
        let header: SliceStart = parse_slice_layer(r, count)?;
        prev = Some(start.mba);
        segment = segment + 1;
        start = header;
    }
}

/// Tell whether all macroblocks are decoded.
fn is_all_done(done: &Vec<bool>) -> (b: bool)
    ensures
        b == all_done(done@),
{
    let mut i: usize = 0;
    while i < done.len()
        invariant
            i <= done@.len(),
            forall|k: int| 0 <= k < i ==> #[trigger] done@[k],
        decreases done@.len() - i,
    {
        if !done[i] {
            return false;
        }
        i = i + 1;
    }
    true
}

/// `n` macroblocks of which none is decoded.
fn none_done(n: usize) -> (v: Vec<bool>)
    ensures
        v@ == Seq::new(n as nat, |i: int| false),
{
    let mut v: Vec<bool> = Vec::new();
    let mut i: usize = 0;
    while i < n
        invariant
            i <= n,
            v@.len() == i,
            forall|k: int| 0 <= k < i ==> !#[trigger] v@[k],
        decreases n - i,
    {
        v.push(false);
        i = i + 1;
    }
    assert(v@ =~= Seq::new(n as nat, |i: int| false));
    v
}

/// Decode the slices of a picture whose header has been read.
#[verifier::spinoff_prover]
pub fn decode_slice_structured_after_header(
    r: &mut BitReader<'_>,
    header: &H263PictureHeader,
    layout: &PictureLayout,
    sss: SliceStructuredSubmode,
    reference: Option<&YuvFrame>,
    options: DecodeOptions,
) -> (res: Result<YuvFrame, Error>)
    requires
        layout.wf(),
        reference_sound(*header, *layout, sss, macroblocks::planes_of(reference)),
    ensures
        match sliced_picture(
            bits::stream(*old(r)),
            bits::bits_read(*old(r)) as int,
            *header,
            *layout,
            sss,
            macroblocks::planes_of(reference),
            options,
        ) {
            Ok(p) => res matches Ok(f) && f@ == p,
            Err(e) => res == Err::<YuvFrame, Error>(e),
        },
        res matches Ok(f) ==> f@.stored(),
        bits::moved_on(*old(r), *final(r)),
        slices_refused(*header, *layout, sss, macroblocks::planes_of(reference))
            ==> bits::bits_read(*final(r)) == bits::bits_read(*old(r)),
        res is Ok ==> (all_slices(
            bits::stream(*old(r)),
            bits::bits_read(*old(r)) as int,
            gobs::job_of(*header, *layout, macroblocks::planes_of(reference), options, None),
        ) matches Ok((c, end)) && bits::bits_read(*final(r)) == end),
{
    if header.sac_mode || header.pb_frames || header.advanced_prediction || sss.rectangular {
        return Err(Error::NotImplemented);
    }
    let job: PictureJob<'_> = set_up(header, layout, reference, options, None)?;
    assert(job.mb_cols * job.mb_rows <= 128 * 72) by (nonlinear_arith)
        requires
            job.mb_cols <= 128,
            job.mb_rows <= 72,
    ;
    let count: usize = job.mb_cols * job.mb_rows;
    proof {
        vstd::arithmetic::power2::lemma2_to64();
    }
    let quant: u32 = read_field(r, 5)?;
    if quant == 0 {
        return Err(Error::SliceMbaOutOfRange);
    }
    let mba: u32 = parse_first_slice_header(r, count)?;
    let mut st: PictureState = start_picture(&job);
    let mut done: Vec<bool> = none_done(count);
    let start: SliceStart = SliceStart { mba, squant: quant as u8 };
    decode_slices(r, &job, &mut st, &mut done, start)?;
    if !is_all_done(&done) {
        return Err(Error::BadSliceCoverage);
    }
    proof {
        assert forall|i: int| 0 <= i < st@.quants.len() implies 1 <= #[trigger] st@.quants[i]
            <= 31 by {
            assert(done@[i]);
        }
        assert(deblocking::quantisers_set(st@.quants));
    }
    let (frame, rest): (YuvFrame, YuvFrame) = finish_picture(st, &job, options);
    Ok(frame)
}

/// A slice covers no macroblock before its address.
proof fn lemma_slice_covers(
    s: Seq<bool>,
    at: int,
    job: walk::Job,
    p: walk::Progress,
    done: Seq<bool>,
    addr: int,
    segment: int,
    i: int,
)
    requires
        0 <= i < addr < job.cols * job.rows,
        done.len() == job.cols * job.rows,
    ensures
        with_slice_from(s, at, job, p, done, addr, segment) matches Ok((c, end)) ==> c.done[i]
            == done[i] && c.done.len() == done.len(),
    decreases job.cols * job.rows - addr,
{
    if let Ok((q, end)) = walk::with_macroblock(
        s,
        at,
        job,
        p,
        slice_place(addr, job.cols, segment),
    ) {
        if addr + 1 < job.cols * job.rows {
            lemma_slice_covers(s, end, job, q, done.update(addr, true), addr + 1, segment, i);
        }
    }
}

/// Slices cover no macroblock before the first one's address.
proof fn lemma_slices_cover(
    s: Seq<bool>,
    at: int,
    job: walk::Job,
    p: walk::Progress,
    done: Seq<bool>,
    start: SliceStart,
    prev: Option<u32>,
    segment: int,
    i: int,
)
    requires
        0 <= i,
        i < start.mba || (prev matches Some(q) && i < q),
        done.len() == job.cols * job.rows,
    ensures
        with_slices_from(s, at, job, p, done, start, prev, segment) matches Ok((c, end))
            ==> c.done[i] == done[i] && c.done.len() == done.len(),
    decreases addresses_left(job.cols * job.rows, prev),
{
    let count = job.cols * job.rows;
    let q = walk::Progress { quant: start.squant, ..p };
    if !(prev matches Some(before) && start.mba <= before) && start.mba < count {
        lemma_slice_covers(s, at, job, q, done, start.mba as int, segment, i);
        if let Ok((c, end)) = with_slice_from(s, at, job, q, done, start.mba as int, segment) {
            if let Ok((_, aligned)) = slice_header::stuffing_at(s, end) {
                if let Ok((next, body)) = slice_header::slice_at(s, aligned, count) {
                    lemma_slices_cover(
                        s,
                        body,
                        job,
                        c.progress,
                        c.done,
                        next,
                        Some(start.mba),
                        segment + 1,
                        i,
                    );
                }
            }
        }
    }
}

/// A picture of slices can be decoded only where its first slice starts with
/// its first macroblock: slices come in the order of their addresses, and
/// nothing else would cover that macroblock.
pub proof fn sliced_pictures_start_at_the_first_macroblock(
    s: Seq<bool>,
    at: int,
    header: H263PictureHeader,
    layout: PictureLayout,
    sss: SliceStructuredSubmode,
    reference: Option<frame::Planes>,
    options: DecodeOptions,
)
    requires
        layout.wf(),
    ensures
        sliced_picture(s, at, header, layout, sss, reference, options) is Ok ==> (
        slice_header::first_slice_at(
            s,
            at + 5,
            (layout.luma_width as int / 16) * (layout.luma_height as int / 16),
        ) matches Ok((mba, end)) && mba == 0),
{
    let job = gobs::job_of(header, layout, reference, options, None);
    let count = job.cols * job.rows;
    assert(count > 0) by (nonlinear_arith)
        requires
            count == job.cols * job.rows,
            job.cols > 0,
            job.rows > 0,
    ;
    if sliced_picture(s, at, header, layout, sss, reference, options) is Ok {
        let (quant, p1) = bits::field_at(s, at, 5)->Ok_0;
        let (mba, p2) = slice_header::first_slice_at(s, p1, count)->Ok_0;
        let done = Seq::new(count as nat, |i: int| false);
        let start = SliceStart { mba, squant: quant as u8 };
        if mba > 0 {
            lemma_slices_cover(s, p2, job, gobs::blank(job), done, start, None, 0, 0);
            let (c, end) = with_slices_from(
                s,
                p2,
                job,
                gobs::blank(job),
                done,
                start,
                None,
                0,
            )->Ok_0;
            assert(!c.done[0]);
        }
    }
}

/// The first `n` macroblocks are decoded, and no others.
pub open spec fn covered_up_to(done: Seq<bool>, n: int) -> bool {
    forall|i: int| 0 <= i < done.len() ==> (#[trigger] done[i] <==> i < n)
}

/// A slice covers the macroblocks from its address on without a gap.
proof fn lemma_slice_extends(
    s: Seq<bool>,
    at: int,
    job: walk::Job,
    p: walk::Progress,
    done: Seq<bool>,
    addr: int,
    segment: int,
)
    requires
        0 <= addr < job.cols * job.rows,
        done.len() == job.cols * job.rows,
        covered_up_to(done, addr),
    ensures
        with_slice_from(s, at, job, p, done, addr, segment) matches Ok((c, end)) ==> {
            &&& addr < c.next <= job.cols * job.rows
            &&& c.done.len() == done.len()
            &&& covered_up_to(c.done, c.next)
        },
    decreases job.cols * job.rows - addr,
{
    if let Ok((q, end)) = walk::with_macroblock(
        s,
        at,
        job,
        p,
        slice_place(addr, job.cols, segment),
    ) {
        if addr + 1 < job.cols * job.rows {
            lemma_slice_extends(s, end, job, q, done.update(addr, true), addr + 1, segment);
        }
    }
}

/// In a picture of slices that can be decoded, every slice begins where the one
/// before it ended: the slices leave no gap and do not overlap. The rest of the
/// picture, from the next slice on, is such a picture again.
pub proof fn slices_meet(
    s: Seq<bool>,
    at: int,
    job: walk::Job,
    p: walk::Progress,
    done: Seq<bool>,
    start: SliceStart,
    prev: Option<u32>,
    segment: int,
)
    requires
        done.len() == job.cols * job.rows,
        covered_up_to(done, start.mba as int),
        with_slices_from(s, at, job, p, done, start, prev, segment) matches Ok((c, end))
            && all_done(c.done),
    ensures
        ({
            let count = job.cols * job.rows;
            &&& with_slice_from(
                s,
                at,
                job,
                walk::Progress { quant: start.squant, ..p },
                done,
                start.mba as int,
                segment,
            ) matches Ok((one, end))
            &&& start.mba < one.next <= count
            &&& covered_up_to(one.done, one.next)
            &&& one.next < count ==> {
                &&& slice_header::stuffing_at(s, end) matches Ok((_, aligned))
                &&& slice_header::slice_at(s, aligned, count) matches Ok((next, body))
                &&& next.mba == one.next
                &&& with_slices_from(
                    s,
                    body,
                    job,
                    one.progress,
                    one.done,
                    next,
                    Some(start.mba),
                    segment + 1,
                ) == with_slices_from(s, at, job, p, done, start, prev, segment)
            }
        }),
{
    let count = job.cols * job.rows;
    let q = walk::Progress { quant: start.squant, ..p };
    let whole = with_slices_from(s, at, job, p, done, start, prev, segment);
    lemma_slice_extends(s, at, job, q, done, start.mba as int, segment);
    let (one, end) = with_slice_from(s, at, job, q, done, start.mba as int, segment)->Ok_0;
    if one.next < count {
        let (_, aligned) = slice_header::stuffing_at(s, end)->Ok_0;
        let (next, body) = slice_header::slice_at(s, aligned, count)->Ok_0;
        if next.mba < one.next {
            assert(one.done[next.mba as int]);
        } else if next.mba > one.next {
            lemma_slices_cover(
                s,
                body,
                job,
                one.progress,
                one.done,
                next,
                Some(start.mba),
                segment + 1,
                one.next,
            );
            let (c, _) = whole->Ok_0;
            assert(!one.done[one.next]);
            assert(!c.done[one.next]);
        }
    }
}

} // verus!
