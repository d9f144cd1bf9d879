//! The picture layer's header, up to and including the picture type.

use crate::bits;
use crate::error::Error;
use crate::plus_ptype;
use crate::plus_ptype::{parse_plus_ptype, InheritedExtendedState, PlusPtypeHeader};
use oxideav_core::bits::BitReader;
use vstd::prelude::*;

verus! {

/// Length of the picture start code in bits.
pub const PSC_BITS: u32 = 22;

/// The picture start code.
pub const PSC_VALUE: u32 = 0x0000_0020;

/// Source format of PTYPE.
#[derive(Clone, Copy, Debug, PartialEq, Eq, Structural)]
pub enum H263SourceFormat {
    SubQcif,
    Qcif,
    Cif,
    Cif4,
    Cif16,
    Reserved110,
}

impl H263SourceFormat {
    /// Luma width and height; the reserved code has none.
    pub open spec fn dimensions(self) -> Option<(u32, u32)> {
        match self {
            H263SourceFormat::SubQcif => Some((128, 96)),
            H263SourceFormat::Qcif => Some((176, 144)),
            H263SourceFormat::Cif => Some((352, 288)),
            H263SourceFormat::Cif4 => Some((704, 576)),
            H263SourceFormat::Cif16 => Some((1408, 1152)),
            H263SourceFormat::Reserved110 => None,
        }
    }

    /// Groups of blocks in a picture.
    pub open spec fn gobs(self) -> Option<u32> {
        match self {
            H263SourceFormat::SubQcif => Some(6),
            H263SourceFormat::Qcif => Some(9),
            H263SourceFormat::Cif | H263SourceFormat::Cif4 | H263SourceFormat::Cif16 => Some(18),
            H263SourceFormat::Reserved110 => None,
        }
    }

    /// Macroblock rows that one group of blocks spans: as many as keep a
    /// picture at 18 groups or fewer.
    pub open spec fn gob_rows(self) -> Option<u32> {
        match self {
            H263SourceFormat::SubQcif | H263SourceFormat::Qcif | H263SourceFormat::Cif => Some(1),
            H263SourceFormat::Cif4 => Some(2),
            H263SourceFormat::Cif16 => Some(4),
            H263SourceFormat::Reserved110 => None,
        }
    }

    /// Luma width and height; the reserved code has none.
    pub fn luma_dimensions(self) -> (d: Option<(u32, u32)>)
        ensures
            d == self.dimensions(),
    {
        match self {
            H263SourceFormat::SubQcif => Some((128, 96)),
            H263SourceFormat::Qcif => Some((176, 144)),
            H263SourceFormat::Cif => Some((352, 288)),
            H263SourceFormat::Cif4 => Some((704, 576)),
            H263SourceFormat::Cif16 => Some((1408, 1152)),
            H263SourceFormat::Reserved110 => None,
        }
    }

    /// Groups of blocks in a picture.
    pub fn num_gobs(self) -> (n: Option<u32>)
        ensures
            n == self.gobs(),
    {
        match self {
            H263SourceFormat::SubQcif => Some(6),
            H263SourceFormat::Qcif => Some(9),
            H263SourceFormat::Cif => Some(18),
            H263SourceFormat::Cif4 => Some(18),
            H263SourceFormat::Cif16 => Some(18),
            H263SourceFormat::Reserved110 => None,
        }
    }

    /// Macroblock rows that one group of blocks spans.
    pub fn mb_rows_per_gob(self) -> (n: Option<u32>)
        ensures
            n == self.gob_rows(),
    {
        match self {
            H263SourceFormat::SubQcif | H263SourceFormat::Qcif | H263SourceFormat::Cif => Some(1),
            H263SourceFormat::Cif4 => Some(2),
            H263SourceFormat::Cif16 => Some(4),
            H263SourceFormat::Reserved110 => None,
        }
    }

    /// Macroblocks across the picture.
    pub fn mbs_per_row(self) -> (n: Option<u32>)
        ensures
            n == (match self.dimensions() {
                Some((w, _)) => Some(w / 16),
                None => None,
            }),
    {
        match self.luma_dimensions() {
            Some((w, _)) => Some(w / 16),
            None => None,
        }
    }

    /// Macroblocks in the picture.
    pub fn total_macroblocks(self) -> (n: Option<u32>)
        ensures
            n == (match self.dimensions() {
                Some((w, h)) => Some(((w / 16) * (h / 16)) as u32),
                None => None,
            }),
    {
        match self.luma_dimensions() {
            Some((w, h)) => {
                proof {
                    assert((w / 16) * (h / 16) <= 88 * 72) by (nonlinear_arith)
                        requires
                            0 <= w <= 1408,
                            0 <= h <= 1152,
                    ;
                }
                Some((w / 16) * (h / 16))
            },
            None => None,
        }
    }
}

/// A picture is an exact stack of its groups of blocks.
pub proof fn gobs_fill_the_picture(f: H263SourceFormat)
    requires
        f != H263SourceFormat::Reserved110,
    ensures
        f.dimensions() is Some,
        f.gob_rows() is Some,
        f.gobs() is Some,
        f.dimensions() matches Some((w, h)) ==> w % 16 == 0 && f.gobs()->0 * f.gob_rows()->0 * 16
            == h,
{
    assert(6 * 1 * 16 == 96 && 9 * 1 * 16 == 144 && 18 * 1 * 16 == 288 && 18 * 2 * 16 == 576 && 18
        * 4 * 16 == 1152);
}

/// How a picture is predicted.
#[derive(Clone, Copy, Debug, PartialEq, Eq, Structural)]
pub enum H263PictureCodingType {
    Intra,
    Inter,
}

/// A picture header without extended picture type.
#[derive(Clone, Copy, Debug, PartialEq, Eq, Structural)]
pub struct H263PictureHeader {
    pub temporal_reference: u8,
    pub split_screen: bool,
    pub document_camera: bool,
    pub freeze_release: bool,
    pub source_format: H263SourceFormat,
    pub coding_type: H263PictureCodingType,
    /// Unrestricted motion vectors.
    pub umv_mode: bool,
    /// Syntax-based arithmetic coding.
    pub sac_mode: bool,
    pub advanced_prediction: bool,
    pub pb_frames: bool,
}

/// The fields that come before an extended picture type.
#[derive(Clone, Copy, Debug, PartialEq, Eq, Structural)]
pub struct PicturePrefix {
    pub temporal_reference: u8,
    pub split_screen: bool,
    pub document_camera: bool,
    pub freeze_release: bool,
}

/// A picture header with an extended picture type.
#[derive(Clone, Copy, Debug, PartialEq, Eq, Structural)]
pub struct H263ExtendedPicture {
    pub prefix: PicturePrefix,
    pub plus: PlusPtypeHeader,
}

/// A picture header of either kind.
#[derive(Clone, Copy, Debug, PartialEq, Eq, Structural)]
pub enum H263PictureLayer {
    Baseline(H263PictureHeader),
    Extended(H263ExtendedPicture),
}

/// The first thing that is wrong with the header at bit `at`, up to its source
/// format code.
pub open spec fn prefix_error(s: Seq<bool>, at: int) -> Option<Error> {
    if !bits::has_bits(s, at, 22) {
        Some(Error::UnexpectedEof)
    } else if bits::field(s, at, 22) != PSC_VALUE {
        Some(Error::BadPictureStartCode)
    } else if !bits::has_bits(s, at, 31) {
        Some(Error::UnexpectedEof)
    } else if !s[at + 30] {
        Some(Error::BadPtypeFixedBits)
    } else if !bits::has_bits(s, at, 32) {
        Some(Error::UnexpectedEof)
    } else if s[at + 31] {
        Some(Error::BadPtypeFixedBits)
    } else if !bits::has_bits(s, at, 38) {
        Some(Error::UnexpectedEof)
    } else if bits::field(s, at + 35, 3) == 0 {
        Some(Error::ForbiddenSourceFormat)
    } else {
        None
    }
}

/// The fields before the source format code of the header at bit `at`.
pub open spec fn prefix_at(s: Seq<bool>, at: int) -> PicturePrefix {
    PicturePrefix {
        temporal_reference: bits::field(s, at + 22, 8) as u8,
        split_screen: s[at + 32],
        document_camera: s[at + 33],
        freeze_release: s[at + 34],
    }
}

/// The source format of a PTYPE code.
pub open spec fn source_format(code: nat) -> H263SourceFormat {
    if code == 1 {
        H263SourceFormat::SubQcif
    } else if code == 2 {
        H263SourceFormat::Qcif
    } else if code == 3 {
        H263SourceFormat::Cif
    } else if code == 4 {
        H263SourceFormat::Cif4
    } else if code == 5 {
        H263SourceFormat::Cif16
    } else {
        H263SourceFormat::Reserved110
    }
}

/// The header at bit `at` has an extended picture type.
pub open spec fn is_extended(s: Seq<bool>, at: int) -> bool {
    bits::field(s, at + 35, 3) == 7
}

/// The picture header without extended type at bit `at`.
pub open spec fn picture_header_at(s: Seq<bool>, at: int) -> H263PictureHeader {
    let p = prefix_at(s, at);
    H263PictureHeader {
        temporal_reference: p.temporal_reference,
        split_screen: p.split_screen,
        document_camera: p.document_camera,
        freeze_release: p.freeze_release,
        source_format: source_format(bits::field(s, at + 35, 3)),
        coding_type: if s[at + 38] {
            H263PictureCodingType::Inter
        } else {
            H263PictureCodingType::Intra
        },
        umv_mode: s[at + 39],
        sac_mode: s[at + 40],
        advanced_prediction: s[at + 41],
        pb_frames: s[at + 42],
    }
}

/// What parsing the picture header without extended type at bit `at` gives.
pub open spec fn parsed_picture_header(s: Seq<bool>, at: int) -> Result<H263PictureHeader, Error> {
    match prefix_error(s, at) {
        Some(e) => Err(e),
        None => if is_extended(s, at) {
            Err(Error::ExtendedPtypeNotSupported)
        } else if !bits::has_bits(s, at, 43) {
            Err(Error::UnexpectedEof)
        } else {
            Ok(picture_header_at(s, at))
        },
    }
}

/// What parsing the picture header of either kind at bit `at` gives.
pub open spec fn parsed_picture_layer(
    s: Seq<bool>,
    at: int,
    inherited: InheritedExtendedState,
) -> Result<H263PictureLayer, Error> {
    match prefix_error(s, at) {
        Some(e) => Err(e),
        None => if is_extended(s, at) {
            match plus_ptype::plus_ptype_error(s, at + 38, inherited) {
                Some(e) => Err(e),
                None => Ok(
                    H263PictureLayer::Extended(
                        H263ExtendedPicture {
                            prefix: prefix_at(s, at),
                            plus: plus_ptype::plus_ptype_at(s, at + 38, inherited),
                        },
                    ),
                ),
            }
        } else if !bits::has_bits(s, at, 43) {
            Err(Error::UnexpectedEof)
        } else {
            Ok(H263PictureLayer::Baseline(picture_header_at(s, at)))
        },
    }
}

/// The bit behind the picture header of either kind at bit `at`.
pub open spec fn picture_layer_end(
    s: Seq<bool>,
    at: int,
    inherited: InheritedExtendedState,
) -> int {
    if is_extended(s, at) {
        plus_ptype::layout(s, at + 38, inherited).end
    } else {
        at + 43
    }
}

/// A stream's beginning that holds its picture header has the same one.
pub proof fn lemma_picture_layer_begins(
    t: Seq<bool>,
    s: Seq<bool>,
    inherited: InheritedExtendedState,
)
    requires
        bits::begins(t, s),
        parsed_picture_layer(s, 0, inherited) is Ok,
        picture_layer_end(s, 0, inherited) <= t.len(),
        43 <= t.len(),
    ensures
        parsed_picture_layer(t, 0, inherited) == parsed_picture_layer(s, 0, inherited),
        picture_layer_end(t, 0, inherited) == picture_layer_end(s, 0, inherited),
{
    bits::lemma_field_begins(t, s, 0, 22);
    bits::lemma_field_begins(t, s, 22, 8);
    bits::lemma_field_begins(t, s, 35, 3);
    if is_extended(s, 0) {
        plus_ptype::lemma_plus_ptype_begins(t, s, 38, inherited);
    }
}

/// Parse a header up to its source format code, which is returned beside the
/// fields before it.
fn parse_prefix(reader: &mut BitReader<'_>) -> (res: Result<(PicturePrefix, u32), Error>)
    ensures
        ({
            let s = bits::stream(*old(reader));
            let at = bits::bits_read(*old(reader)) as int;
            &&& res == match prefix_error(s, at) {
                Some(e) => Err(e),
                None => Ok((prefix_at(s, at), bits::field(s, at + 35, 3) as u32)),
            }
            &&& res matches Ok((_, code)) ==> code == bits::field(s, at + 35, 3) && 1 <= code < 8
                && bits::advanced(*old(reader), *final(reader), 38)
            &&& bits::moved_on(*old(reader), *final(reader))
        }),
{
    proof {
        vstd::arithmetic::power2::lemma2_to64();
    }
    let psc: u32 = bits::read_field(reader, PSC_BITS)?;
    if psc != PSC_VALUE {
        return Err(Error::BadPictureStartCode);
    }
    let tr: u32 = bits::read_field(reader, 8)?;
    if !bits::read_flag(reader)? {
        return Err(Error::BadPtypeFixedBits);
    }
    if bits::read_flag(reader)? {
        return Err(Error::BadPtypeFixedBits);
    }
    let split_screen = bits::read_flag(reader)?;
    let document_camera = bits::read_flag(reader)?;
    let freeze_release = bits::read_flag(reader)?;
    let code: u32 = bits::read_field(reader, 3)?;
    if code == 0 {
        return Err(Error::ForbiddenSourceFormat);
    }
    Ok(
        (
            PicturePrefix {
                temporal_reference: tr as u8,
                split_screen,
                document_camera,
                freeze_release,
            },
            code,
        ),
    )
}

/// Parse what follows a source format code other than the extended one.
fn parse_baseline_rest(
    reader: &mut BitReader<'_>,
    prefix: PicturePrefix,
    code: u32,
) -> (res: Result<H263PictureHeader, Error>)
    requires
        1 <= code <= 6,
        bits::bits_read(*old(reader)) >= 38,
        prefix == prefix_at(bits::stream(*old(reader)), bits::bits_read(*old(reader)) - 38),
        code == bits::field(bits::stream(*old(reader)), bits::bits_read(*old(reader)) - 3, 3),
    ensures
        ({
            let s = bits::stream(*old(reader));
            let at = bits::bits_read(*old(reader)) - 38;
            &&& res == if bits::has_bits(s, at, 43) {
                Ok(picture_header_at(s, at))
            } else {
                Err(Error::UnexpectedEof)
            }
            &&& res is Ok ==> bits::advanced(*old(reader), *final(reader), 5)
            &&& bits::moved_on(*old(reader), *final(reader))
        }),
{
    let source_format = match code {
        1 => H263SourceFormat::SubQcif,
        2 => H263SourceFormat::Qcif,
        3 => H263SourceFormat::Cif,
        4 => H263SourceFormat::Cif4,
        5 => H263SourceFormat::Cif16,
        _ => H263SourceFormat::Reserved110,
    };
    let coding_type = if bits::read_flag(reader)? {
        H263PictureCodingType::Inter
    } else {
        H263PictureCodingType::Intra
    };
    let umv_mode = bits::read_flag(reader)?;
    let sac_mode = bits::read_flag(reader)?;
    let advanced_prediction = bits::read_flag(reader)?;
    let pb_frames = bits::read_flag(reader)?;
    Ok(
        H263PictureHeader {
            temporal_reference: prefix.temporal_reference,
            split_screen: prefix.split_screen,
            document_camera: prefix.document_camera,
            freeze_release: prefix.freeze_release,
            source_format,
            coding_type,
            umv_mode,
            sac_mode,
            advanced_prediction,
            pb_frames,
        },
    )
}

/// Parse a picture header without extended type, from the first bit of its
/// start code on.
pub fn parse_picture_header(reader: &mut BitReader<'_>) -> (res: Result<H263PictureHeader, Error>)
    ensures
        ({
            let s = bits::stream(*old(reader));
            let at = bits::bits_read(*old(reader)) as int;
            &&& res == parsed_picture_header(s, at)
            &&& res is Ok ==> bits::advanced(*old(reader), *final(reader), 43)
            &&& bits::moved_on(*old(reader), *final(reader))
        }),
{
    let (prefix, code) = parse_prefix(reader)?;
    if code == 7 {
        return Err(Error::ExtendedPtypeNotSupported);
    }
    parse_baseline_rest(reader, prefix, code)
}

/// Parse a picture header of either kind, from the first bit of its start code
/// on.
pub fn parse_picture_layer(
    reader: &mut BitReader<'_>,
    inherited: InheritedExtendedState,
) -> (res: Result<H263PictureLayer, Error>)
    ensures
        ({
            let s = bits::stream(*old(reader));
            let at = bits::bits_read(*old(reader)) as int;
            &&& res == parsed_picture_layer(s, at, inherited)
            &&& res is Ok ==> bits::advanced(
                *old(reader),
                *final(reader),
                picture_layer_end(s, at, inherited) - at,
            )
            &&& bits::moved_on(*old(reader), *final(reader))
        }),
{
    let (prefix, code) = parse_prefix(reader)?;
    if code == 7 {
        let plus = parse_plus_ptype(reader, inherited)?;
        return Ok(H263PictureLayer::Extended(H263ExtendedPicture { prefix, plus }));
    }
    let header = parse_baseline_rest(reader, prefix, code)?;
    Ok(H263PictureLayer::Baseline(header))
}

} // verus!
