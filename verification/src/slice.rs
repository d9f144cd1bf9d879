//! The slice layer of the Slice Structured mode.
//!
//! In that mode slices stand in place of groups of blocks. Behind a slice
//! start code a slice header gives the address of the slice's first
//! macroblock, its quantiser and, where slices are rectangles, its width:
//!
//! ```text
//! SSC(17) | SEPB1(1) | SSBI(4) | MBA | SEPB2(1) | SQUANT(5) | SWI | SEPB3(1) | GFID(2)
//! ```
//!
//! SSBI, SEPB2 and SWI are there only under the conditions that [`layout`]
//! states. The first slice of a picture has neither start code nor SSBI nor
//! SQUANT.

use crate::bits;
use crate::bits::{read_field, read_flag};
use oxideav_core::bits::{BitReader, BitWriter};
use vstd::arithmetic::power2::pow2;
use vstd::prelude::*;

verus! {

/// The slice start code's value.
pub const SSC_VALUE: u32 = 1;

/// The slice start code's width in bits.
pub const SSC_BITS: u32 = 17;

/// The eight values of a picture's three-bit source format.
#[derive(Clone, Copy, Debug, PartialEq, Eq, Structural)]
pub enum SourceFormat {
    Forbidden,
    SubQcif,
    Qcif,
    Cif,
    FourCif,
    SixteenCif,
    Reserved,
    Extended,
}

/// Why a slice header cannot be read or written.
#[derive(Clone, Copy, Debug, PartialEq, Eq, Structural)]
pub enum SliceError {
    /// The stream ends within the header.
    OutOfBits,
    /// The header's field widths are not defined for the source format.
    UnsupportedFormat(SourceFormat),
    /// The first marker bit is clear.
    BadSepb1,
    /// The second marker bit is clear.
    BadSepb2,
    /// The third marker bit is clear.
    BadSepb3,
    /// The quantiser is not in the range of 1 to 31.
    BadSquant(u8),
    /// A sub-bitstream indicator is needed and was not given.
    SsbiMissing,
    /// A slice width is needed and was not given.
    SwiMissing,
}

/// The two submodes of the Slice Structured mode.
#[derive(Clone, Copy, Debug, PartialEq, Eq, Structural)]
pub struct SssMode {
    /// Slices are rectangles.
    pub rectangular_slice: bool,
    /// Slices come in any order.
    pub arbitrary_order: bool,
}

impl Default for SssMode {
    fn default() -> (m: SssMode)
        ensures
            !m.rectangular_slice,
            !m.arbitrary_order,
    {
        SssMode { rectangular_slice: false, arbitrary_order: false }
    }
}

impl SssMode {
    /// The submodes as a two-bit number.
    pub open spec fn code(self) -> nat {
        2 * bits::bit_value(self.rectangular_slice) + bits::bit_value(self.arbitrary_order)
    }

    /// The submodes that the low two bits of `bits` give.
    pub fn from_bits(bits: u8) -> (m: SssMode)
        ensures
            m.code() == bits % 4,
    {
        SssMode { rectangular_slice: bits / 2 % 2 == 1, arbitrary_order: bits % 2 == 1 }
    }

    /// The two-bit number that gives the submodes.
    pub fn to_bits(self) -> (n: u32)
        ensures
            n == self.code(),
    {
        let high: u32 = if self.rectangular_slice {
            2
        } else {
            0
        };
        let low: u32 = if self.arbitrary_order {
            1
        } else {
            0
        };
        high + low
    }
}

/// A submode code is two bits wide, and different submodes have different
/// codes: reading a code gives back the submodes that it was written from.
pub proof fn submode_codes_are_distinct(a: SssMode, b: SssMode)
    ensures
        a.code() < 4,
        a.code() == b.code() ==> a == b,
{
}

/// A slice header's content.
#[derive(Clone, Copy, Debug)]
pub struct SliceHeader {
    /// The address of the slice's first macroblock.
    pub mba: u32,
    /// The slice's quantiser; 0 in a picture's first slice, which has the
    /// picture's.
    pub squant: u8,
    /// One less than the slice's width in macroblocks, where slices are
    /// rectangles.
    pub swi: Option<u32>,
    /// The frame identifier.
    pub gfid: u8,
    /// The sub-bitstream, where a stream holds several.
    pub ssbi: Option<u8>,
}

/// The width in bits of a macroblock address.
pub open spec fn mba_width(format: SourceFormat, rru: bool) -> Option<int> {
    match format {
        SourceFormat::SubQcif => Some(if rru { 5 } else { 6 }),
        SourceFormat::Qcif => Some(if rru { 6 } else { 7 }),
        SourceFormat::Cif => Some(if rru { 7 } else { 9 }),
        SourceFormat::FourCif => Some(if rru { 9 } else { 11 }),
        SourceFormat::SixteenCif => Some(if rru { 11 } else { 13 }),
        _ => None,
    }
}

/// The width in bits of a slice width.
pub open spec fn swi_width(format: SourceFormat, rru: bool) -> Option<int> {
    match format {
        SourceFormat::SubQcif => Some(if rru { 3 } else { 4 }),
        SourceFormat::Qcif => Some(if rru { 3 } else { 4 }),
        SourceFormat::Cif => Some(if rru { 4 } else { 5 }),
        SourceFormat::FourCif => Some(if rru { 5 } else { 6 }),
        SourceFormat::SixteenCif => Some(if rru { 6 } else { 7 }),
        _ => None,
    }
}

/// The width in bits of a macroblock address; `rru` is for the Reduced
/// Resolution Update mode, whose macroblocks are larger.
pub fn mba_field_width(format: SourceFormat, rru: bool) -> (res: Result<u32, SliceError>)
    ensures
        mba_width(format, rru) matches Some(n) ==> res == Ok::<u32, SliceError>(n as u32),
        mba_width(format, rru) is None ==> res == Err::<u32, _>(
            SliceError::UnsupportedFormat(format),
        ),
{
    match (format, rru) {
        (SourceFormat::SubQcif, false) => Ok(6),
        (SourceFormat::SubQcif, true) => Ok(5),
        (SourceFormat::Qcif, false) => Ok(7),
        (SourceFormat::Qcif, true) => Ok(6),
        (SourceFormat::Cif, false) => Ok(9),
        (SourceFormat::Cif, true) => Ok(7),
        (SourceFormat::FourCif, false) => Ok(11),
        (SourceFormat::FourCif, true) => Ok(9),
        (SourceFormat::SixteenCif, false) => Ok(13),
        (SourceFormat::SixteenCif, true) => Ok(11),
        _ => Err(SliceError::UnsupportedFormat(format)),
    }
}

/// The width in bits of a slice width; `rru` is for the Reduced Resolution
/// Update mode, whose macroblocks are larger.
pub fn swi_field_width(format: SourceFormat, rru: bool) -> (res: Result<u32, SliceError>)
    ensures
        swi_width(format, rru) matches Some(n) ==> res == Ok::<u32, SliceError>(n as u32),
        swi_width(format, rru) is None ==> res == Err::<u32, _>(
            SliceError::UnsupportedFormat(format),
        ),
{
    match (format, rru) {
        (SourceFormat::SubQcif, false) => Ok(4),
        (SourceFormat::SubQcif, true) => Ok(3),
        (SourceFormat::Qcif, false) => Ok(4),
        (SourceFormat::Qcif, true) => Ok(3),
        (SourceFormat::Cif, false) => Ok(5),
        (SourceFormat::Cif, true) => Ok(4),
        (SourceFormat::FourCif, false) => Ok(6),
        (SourceFormat::FourCif, true) => Ok(5),
        (SourceFormat::SixteenCif, false) => Ok(7),
        (SourceFormat::SixteenCif, true) => Ok(6),
        _ => Err(SliceError::UnsupportedFormat(format)),
    }
}

/// The widths in bits of a slice header's fields between its first marker bit
/// and its end, 0 for a field that is absent.
pub struct SliceLayout {
    pub ssbi: int,
    pub mba: int,
    pub sepb2: int,
    pub squant: int,
    pub swi: int,
}

/// Which fields a slice header has.
///
/// The second marker bit is there to keep a long macroblock address from
/// looking like a start code, and in a picture's first slice to part the
/// address from the width of a rectangle.
pub open spec fn layout(
    format: SourceFormat,
    sss: SssMode,
    cpm: bool,
    is_first_slice: bool,
) -> SliceLayout {
    let mba = mba_width(format, false).unwrap_or(0);
    SliceLayout {
        ssbi: if cpm && !is_first_slice {
            4
        } else {
            0
        },
        mba,
        sepb2: if is_first_slice && sss.rectangular_slice || !is_first_slice && mba > (if cpm {
            9int
        } else {
            11
        }) {
            1
        } else {
            0
        },
        squant: if is_first_slice {
            0
        } else {
            5
        },
        swi: if sss.rectangular_slice {
            swi_width(format, false).unwrap_or(0)
        } else {
            0
        },
    }
}

impl SliceLayout {
    pub open spec fn mba_at(self) -> int {
        1 + self.ssbi
    }

    pub open spec fn sepb2_at(self) -> int {
        self.mba_at() + self.mba
    }

    pub open spec fn squant_at(self) -> int {
        self.sepb2_at() + self.sepb2
    }

    pub open spec fn swi_at(self) -> int {
        self.squant_at() + self.squant
    }

    pub open spec fn sepb3_at(self) -> int {
        self.swi_at() + self.swi
    }

    pub open spec fn gfid_at(self) -> int {
        self.sepb3_at() + 1
    }

    /// The length of the header behind its start code.
    pub open spec fn end(self) -> int {
        self.gfid_at() + 2
    }
}

/// What is wrong with the header whose first marker bit is bit `at` of `s`, if
/// anything.
pub open spec fn body_error(
    s: Seq<bool>,
    at: int,
    format: SourceFormat,
    sss: SssMode,
    cpm: bool,
    is_first_slice: bool,
) -> Option<SliceError> {
    let l = layout(format, sss, cpm, is_first_slice);
    if !bits::has_bits(s, at, 1) {
        Some(SliceError::OutOfBits)
    } else if !s[at] {
        Some(SliceError::BadSepb1)
    } else if !bits::has_bits(s, at, l.mba_at()) {
        Some(SliceError::OutOfBits)
    } else if mba_width(format, false) is None {
        Some(SliceError::UnsupportedFormat(format))
    } else if !bits::has_bits(s, at, l.squant_at()) {
        Some(SliceError::OutOfBits)
    } else if l.sepb2 == 1 && !s[at + l.sepb2_at()] {
        Some(SliceError::BadSepb2)
    } else if !bits::has_bits(s, at, l.swi_at()) {
        Some(SliceError::OutOfBits)
    } else if l.squant == 5 && bits::field(s, at + l.squant_at(), 5) == 0 {
        Some(SliceError::BadSquant(0))
    } else if !bits::has_bits(s, at, l.gfid_at()) {
        Some(SliceError::OutOfBits)
    } else if !s[at + l.sepb3_at()] {
        Some(SliceError::BadSepb3)
    } else if !bits::has_bits(s, at, l.end()) {
        Some(SliceError::OutOfBits)
    } else {
        None
    }
}

/// The content of the header whose first marker bit is bit `at` of `s`.
pub open spec fn parsed_body(
    s: Seq<bool>,
    at: int,
    format: SourceFormat,
    sss: SssMode,
    cpm: bool,
    is_first_slice: bool,
) -> SliceHeader {
    let l = layout(format, sss, cpm, is_first_slice);
    SliceHeader {
        mba: bits::field(s, at + l.mba_at(), l.mba) as u32,
        squant: if is_first_slice {
            0
        } else {
            bits::field(s, at + l.squant_at(), 5) as u8
        },
        swi: if sss.rectangular_slice {
            Some(bits::field(s, at + l.swi_at(), l.swi) as u32)
        } else {
            None
        },
        gfid: bits::field(s, at + l.gfid_at(), 2) as u8,
        ssbi: if cpm && !is_first_slice {
            Some(bits::field(s, at + 1, 4) as u8)
        } else {
            None
        },
    }
}

/// Read an `n`-bit field of a slice header.
fn header_field(br: &mut BitReader<'_>, n: u32) -> (res: Result<u32, SliceError>)
    requires
        1 <= n <= 13,
    ensures
        res is Ok <==> bits::has_bits(
            bits::stream(*old(br)),
            bits::bits_read(*old(br)) as int,
            n as int,
        ),
        res matches Ok(v) ==> v == bits::field(
            bits::stream(*old(br)),
            bits::bits_read(*old(br)) as int,
            n as int,
        ) && v < pow2(n as nat) && bits::advanced(*old(br), *final(br), n as int),
        res matches Err(e) ==> e == SliceError::OutOfBits && bits::advanced(
            *old(br),
            *final(br),
            0,
        ),
{
    match read_field(br, n) {
        Ok(v) => Ok(v),
        Err(_) => Err(SliceError::OutOfBits),
    }
}

/// Read a marker bit, which is set.
fn marker(br: &mut BitReader<'_>, clear: SliceError) -> (res: Result<(), SliceError>)
    ensures
        res is Ok <==> bits::has_bits(
            bits::stream(*old(br)),
            bits::bits_read(*old(br)) as int,
            1,
        ) && bits::stream(*old(br))[bits::bits_read(*old(br)) as int],
        res is Ok ==> bits::advanced(*old(br), *final(br), 1),
        res matches Err(e) ==> bits::moved_on(*old(br), *final(br)) && e == (if bits::has_bits(
            bits::stream(*old(br)),
            bits::bits_read(*old(br)) as int,
            1,
        ) {
            clear
        } else {
            SliceError::OutOfBits
        }),
{
    match read_flag(br) {
        Ok(b) => {
            if b {
                Ok(())
            } else {
                Err(clear)
            }
        },
        Err(_) => Err(SliceError::OutOfBits),
    }
}

/// Parse a slice header from its first marker bit on.
///
/// The caller has read the slice start code, which a picture's first slice does
/// not have.
#[verifier::spinoff_prover]
pub fn parse_slice_header_body(
    br: &mut BitReader<'_>,
    format: SourceFormat,
    sss: SssMode,
    cpm: bool,
    is_first_slice: bool,
) -> (res: Result<SliceHeader, SliceError>)
    ensures
        ({
            let s = bits::stream(*old(br));
            let at = bits::bits_read(*old(br)) as int;
            match body_error(s, at, format, sss, cpm, is_first_slice) {
                Some(e) => res == Err::<SliceHeader, _>(e),
                None => res == Ok::<_, SliceError>(
                    parsed_body(s, at, format, sss, cpm, is_first_slice),
                ) && bits::advanced(
                    *old(br),
                    *final(br),
                    layout(format, sss, cpm, is_first_slice).end(),
                ),
            }
        }),
        bits::moved_on(*old(br), *final(br)),
{
    let ghost s = bits::stream(*br);
    let ghost at = bits::bits_read(*br) as int;
    let ghost l = layout(format, sss, cpm, is_first_slice);
    proof {
        vstd::arithmetic::power2::lemma2_to64();
    }
    marker(br, SliceError::BadSepb1)?;
    let ssbi: Option<u8> = if cpm && !is_first_slice {
        Some(header_field(br, 4)? as u8)
    } else {
        None
    };
    assert(bits::bits_read(*br) == at + l.mba_at());
    let mba_w: u32 = mba_field_width(format, false)?;
    let mba: u32 = header_field(br, mba_w)?;
    let sepb2_needed: bool = if is_first_slice {
        sss.rectangular_slice
    } else if cpm {
        mba_w > 9
    } else {
        mba_w > 11
    };
    if sepb2_needed {
        marker(br, SliceError::BadSepb2)?;
    }
    assert(bits::bits_read(*br) == at + l.squant_at());
    let squant: u8 = if !is_first_slice {
        let q: u8 = header_field(br, 5)? as u8;
        if q == 0 {
            return Err(SliceError::BadSquant(0));
        }
        q
    } else {
        0
    };
    assert(bits::bits_read(*br) == at + l.swi_at());
    let swi: Option<u32> = if sss.rectangular_slice {
        let w: u32 = swi_field_width(format, false)?;
        Some(header_field(br, w)?)
    } else {
        None
    };
    assert(bits::bits_read(*br) == at + l.sepb3_at());
    marker(br, SliceError::BadSepb3)?;
    let gfid: u8 = header_field(br, 2)? as u8;
    Ok(SliceHeader { mba, squant, swi, gfid, ssbi })
}

/// The sub-bitstream indicator's bits, in a mode that has it.
pub open spec fn ssbi_bits(cpm: bool, ssbi: Option<u8>) -> Seq<bool> {
    match ssbi {
        Some(v) if cpm => bits::bits_of(v as nat, 4),
        _ => Seq::empty(),
    }
}

/// The slice width's bits, in a submode that has it.
pub open spec fn swi_bits(format: SourceFormat, sss: SssMode, swi: Option<u32>) -> Seq<bool> {
    match swi {
        Some(v) if sss.rectangular_slice => bits::bits_of(
            v as nat,
            swi_width(format, false).unwrap_or(0) as nat,
        ),
        _ => Seq::empty(),
    }
}

/// The start code, the first marker bit and the sub-bitstream indicator.
pub open spec fn leading_bits(cpm: bool, ssbi: Option<u8>) -> Seq<bool> {
    bits::bits_of(1, 17) + seq![true] + ssbi_bits(cpm, ssbi)
}

/// A slice header with its start code, for a slice that is not a picture's
/// first. An indicator or a width that the mode does not have is left out.
pub open spec fn header_bits(
    format: SourceFormat,
    sss: SssMode,
    cpm: bool,
    mba: u32,
    squant: u8,
    swi: Option<u32>,
    gfid: u8,
    ssbi: Option<u8>,
) -> Seq<bool> {
    let w = mba_width(format, false).unwrap_or(0);
    leading_bits(cpm, ssbi) + bits::bits_of(mba as nat, w as nat) + (if w > (if cpm {
        9int
    } else {
        11
    }) {
        seq![true]
    } else {
        Seq::empty()
    }) + bits::bits_of(squant as nat, 5) + swi_bits(format, sss, swi) + seq![true]
        + bits::bits_of(gfid as nat, 2)
}

/// Why a slice header cannot be written, if it cannot.
pub open spec fn header_error(
    format: SourceFormat,
    sss: SssMode,
    cpm: bool,
    squant: u8,
    swi: Option<u32>,
    ssbi: Option<u8>,
) -> Option<SliceError> {
    if cpm && ssbi is None {
        Some(SliceError::SsbiMissing)
    } else if sss.rectangular_slice && swi is None {
        Some(SliceError::SwiMissing)
    } else if squant == 0 || squant > 31 {
        Some(SliceError::BadSquant(squant))
    } else if mba_width(format, false) is None {
        Some(SliceError::UnsupportedFormat(format))
    } else {
        None
    }
}

/// Append a marker bit.
fn write_marker(bw: &mut BitWriter)
    ensures
        bits::written(*final(bw)) == bits::written(*old(bw)) + seq![true],
{
    bw.write_bit(true);
    assert(bits::written(*bw) =~= bits::written(*old(bw)) + seq![true]);
}

/// Write the header of a slice that is not a picture's first, start code
/// first. Fields are cut to their widths. The sub-bitstream indicator is written
/// only with `cpm`, and the slice width only where slices are rectangles.
///
/// Where the source format has no field widths, that comes to light only when
/// the start code and what stands before the address have been written.
#[verifier::spinoff_prover]
pub fn write_slice_header(
    bw: &mut BitWriter,
    format: SourceFormat,
    sss: SssMode,
    cpm: bool,
    mba: u32,
    squant: u8,
    swi: Option<u32>,
    gfid: u8,
    ssbi: Option<u8>,
) -> (res: Result<(), SliceError>)
    requires
        bits::written(*old(bw)).len() % 8 == 0,
    ensures
        header_error(format, sss, cpm, squant, swi, ssbi) is None <==> res is Ok,
        res matches Err(e) ==> header_error(format, sss, cpm, squant, swi, ssbi) == Some(e),
        bits::written(*final(bw)) == bits::written(*old(bw)) + (match header_error(
            format,
            sss,
            cpm,
            squant,
            swi,
            ssbi,
        ) {
            None => header_bits(format, sss, cpm, mba, squant, swi, gfid, ssbi),
            Some(SliceError::UnsupportedFormat(_)) => leading_bits(cpm, ssbi),
            Some(_) => Seq::empty(),
        }),
{
    let ghost start = bits::written(*bw);
    if cpm && ssbi.is_none() {
        assert(start + Seq::<bool>::empty() =~= start);
        return Err(SliceError::SsbiMissing);
    }
    if sss.rectangular_slice && swi.is_none() {
        assert(start + Seq::<bool>::empty() =~= start);
        return Err(SliceError::SwiMissing);
    }
    if squant == 0 || squant > 31 {
        assert(start + Seq::<bool>::empty() =~= start);
        return Err(SliceError::BadSquant(squant));
    }
    bw.write_bits(SSC_VALUE, SSC_BITS);
    write_marker(bw);
    if let Some(v) = ssbi {
        if cpm {
            bw.write_bits(v as u32, 4);
        }
    }
    assert(bits::written(*bw) =~= start + leading_bits(cpm, ssbi));
    let mba_w: u32 = mba_field_width(format, false)?;
    bw.write_bits(mba, mba_w);
    let sepb2_needed: bool = if cpm {
        mba_w > 9
    } else {
        mba_w > 11
    };
    let ghost address = bits::bits_of(mba as nat, mba_w as nat);
    let ghost second: Seq<bool> = if sepb2_needed {
        seq![true]
    } else {
        Seq::empty()
    };
    if sepb2_needed {
        write_marker(bw);
    }
    assert(bits::written(*bw) =~= start + leading_bits(cpm, ssbi) + address + second);
    bw.write_bits(squant as u32, 5);
    if let Some(w) = swi {
        if sss.rectangular_slice {
            let swi_w: u32 = swi_field_width(format, false)?;
            bw.write_bits(w, swi_w);
        }
    }
    assert(bits::written(*bw) =~= start + leading_bits(cpm, ssbi) + address + second + bits::bits_of(
        squant as nat,
        5,
    ) + swi_bits(format, sss, swi));
    write_marker(bw);
    bw.write_bits(gfid as u32, 2);
    assert(bits::written(*bw) =~= start + header_bits(
        format,
        sss,
        cpm,
        mba,
        squant,
        swi,
        gfid,
        ssbi,
    ));
    Ok(())
}

/// The number of bits that `n` bits lack to whole bytes.
pub open spec fn stuffing(n: nat) -> nat {
    ((8 - n % 8) % 8) as nat
}

/// Append clear bits until the bits so far fill whole bytes.
pub fn align_for_ssc(bw: &mut BitWriter)
    ensures
        bits::written(*final(bw)).len() % 8 == 0,
        bits::written(*final(bw)) == bits::written(*old(bw)) + bits::bits_of(
            0,
            stuffing(bits::written(*old(bw)).len()),
        ),
{
    let ghost start = bits::written(*bw);
    let ghost mut pad: nat = 0;
    assert(start + bits::bits_of(0, 0) =~= start);
    while !bw.is_byte_aligned()
        invariant
            bits::written(*bw) == start + bits::bits_of(0, pad),
            bits::bits_of(0, pad).len() == pad,
            pad <= stuffing(start.len()),
        decreases stuffing(start.len()) - pad,
    {
        bw.write_bits(0, 1);
        proof {
            reveal_with_fuel(bits::bits_of, 2);
            assert(bits::bits_of(0, 1) =~= seq![false]);
            assert(bits::bits_of(0, pad + 1) =~= bits::bits_of(0, pad) + bits::bits_of(0, 1));
            assert(bits::written(*bw) =~= start + bits::bits_of(0, pad + 1));
            pad = pad + 1;
        }
    }
}

/// An indicator or a width that the mode does not have changes nothing of what
/// is written.
pub proof fn absent_fields_are_not_written(
    format: SourceFormat,
    sss: SssMode,
    cpm: bool,
    mba: u32,
    squant: u8,
    swi: Option<u32>,
    gfid: u8,
    ssbi: Option<u8>,
)
    ensures
        !cpm ==> header_bits(format, sss, cpm, mba, squant, swi, gfid, ssbi) == header_bits(
            format,
            sss,
            cpm,
            mba,
            squant,
            swi,
            gfid,
            None,
        ) && header_error(format, sss, cpm, squant, swi, ssbi) == header_error(
            format,
            sss,
            cpm,
            squant,
            swi,
            None,
        ),
        !sss.rectangular_slice ==> header_bits(format, sss, cpm, mba, squant, swi, gfid, ssbi)
            == header_bits(format, sss, cpm, mba, squant, None, gfid, ssbi) && header_error(
            format,
            sss,
            cpm,
            squant,
            swi,
            ssbi,
        ) == header_error(format, sss, cpm, squant, None, ssbi),
{
}

/// A part of a part of a sequence.
proof fn lemma_inside(s: Seq<bool>, at: int, h: Seq<bool>, i: int, n: int)
    requires
        0 <= at,
        at + h.len() <= s.len(),
        s.subrange(at, at + h.len()) == h,
        0 <= i,
        0 <= n,
        i + n <= h.len(),
    ensures
        s.subrange(at + i, at + i + n) == h.subrange(i, i + n),
{
    assert(s.subrange(at + i, at + i + n) =~= s.subrange(at, at + h.len()).subrange(i, i + n));
}

/// A slice header that is written with all fields in their ranges is read back
/// as it was, wherever in a stream it stands; a field that the mode does not
/// have is read as absent.
#[verifier::spinoff_prover]
pub proof fn slice_header_round_trips(
    s: Seq<bool>,
    at: int,
    format: SourceFormat,
    sss: SssMode,
    cpm: bool,
    header: SliceHeader,
)
    requires
        mba_width(format, false) matches Some(w) && header.mba < pow2(w as nat),
        1 <= header.squant <= 31,
        header.gfid < 4,
        cpm ==> (header.ssbi matches Some(v) && v < 16),
        sss.rectangular_slice ==> (header.swi matches Some(v) && v < pow2(
            swi_width(format, false).unwrap_or(0) as nat,
        )),
        0 <= at,
        ({
            let h = header_bits(
                format,
                sss,
                cpm,
                header.mba,
                header.squant,
                header.swi,
                header.gfid,
                header.ssbi,
            );
            at + h.len() <= s.len() && s.subrange(at, at + h.len()) == h
        }),
    ensures
        bits::field(s, at, 17) == SSC_VALUE,
        body_error(s, at + 17, format, sss, cpm, false) is None,
        parsed_body(s, at + 17, format, sss, cpm, false) == (SliceHeader {
            ssbi: if cpm {
                header.ssbi
            } else {
                None
            },
            swi: if sss.rectangular_slice {
                header.swi
            } else {
                None
            },
            ..header
        }),
        17 + layout(format, sss, cpm, false).end() == header_bits(
            format,
            sss,
            cpm,
            header.mba,
            header.squant,
            header.swi,
            header.gfid,
            header.ssbi,
        ).len(),
{
    let l = layout(format, sss, cpm, false);
    let h = header_bits(
        format,
        sss,
        cpm,
        header.mba,
        header.squant,
        header.swi,
        header.gfid,
        header.ssbi,
    );
    let w = l.mba;
    let b = at + 17;
    vstd::arithmetic::power2::lemma2_to64();
    bits::lemma_value_of_bits(1, 17);
    bits::lemma_value_of_bits(header.mba as nat, w as nat);
    bits::lemma_value_of_bits(header.squant as nat, 5);
    bits::lemma_value_of_bits(header.gfid as nat, 2);
    if cpm {
        let v = header.ssbi->Some_0;
        bits::lemma_value_of_bits(v as nat, 4);
    }
    if sss.rectangular_slice {
        let v = header.swi->Some_0;
        bits::lemma_value_of_bits(v as nat, l.swi as nat);
    }
    assert(h.len() == 17 + l.end());
    assert(forall|i: int| 0 <= i < h.len() ==> s[at + i] == #[trigger] h[i]) by {
        assert forall|i: int| 0 <= i < h.len() implies s[at + i] == #[trigger] h[i] by {
            assert(s.subrange(at, at + h.len())[i] == s[at + i]);
        }
    }
    lemma_inside(s, at, h, 0, 17);
    assert(h.subrange(0, 17) =~= bits::bits_of(1, 17));
    assert(h[17]);
    assert(s[b]);
    if cpm {
        let v = header.ssbi->Some_0;
        lemma_inside(s, at, h, 18, 4);
        assert(h.subrange(18, 22) =~= bits::bits_of(v as nat, 4));
    }
    lemma_inside(s, at, h, 17 + l.mba_at(), w);
    assert(h.subrange(17 + l.mba_at(), 17 + l.mba_at() + w) =~= bits::bits_of(
        header.mba as nat,
        w as nat,
    ));
    if l.sepb2 == 1 {
        assert(h[17 + l.sepb2_at()]);
        assert(s[b + l.sepb2_at()]);
    }
    lemma_inside(s, at, h, 17 + l.squant_at(), 5);
    assert(h.subrange(17 + l.squant_at(), 17 + l.squant_at() + 5) =~= bits::bits_of(
        header.squant as nat,
        5,
    ));
    if sss.rectangular_slice {
        let v = header.swi->Some_0;
        lemma_inside(s, at, h, 17 + l.swi_at(), l.swi);
        assert(h.subrange(17 + l.swi_at(), 17 + l.swi_at() + l.swi) =~= bits::bits_of(
            v as nat,
            l.swi as nat,
        ));
    }
    assert(h[17 + l.sepb3_at()]);
    assert(s[b + l.sepb3_at()]);
    lemma_inside(s, at, h, 17 + l.gfid_at(), 2);
    assert(h.subrange(17 + l.gfid_at(), 17 + l.gfid_at() + 2) =~= bits::bits_of(
        header.gfid as nat,
        2,
    ));
}

} // verus!
