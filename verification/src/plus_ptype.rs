//! The extended picture type (PLUSPTYPE) and the fields that follow it.
//!
//! Fields come in a fixed order, and most are present only where an earlier one
//! asks for them; `layout` says where each one lies.

use crate::bits;
use crate::error::Error;
use oxideav_core::bits::BitReader;
use vstd::prelude::*;

verus! {

/// Length of UFEP in bits.
pub const UFEP_BITS: u32 = 3;

/// Length of OPPTYPE in bits.
pub const OPPTYPE_BITS: u32 = 18;

/// Length of MPPTYPE in bits.
pub const MPPTYPE_BITS: u32 = 9;

/// Length of CPFMT in bits.
pub const CPFMT_BITS: u32 = 23;

/// Length of EPAR in bits.
pub const EPAR_BITS: u32 = 16;

/// Length of CPCFC in bits.
pub const CPCFC_BITS: u32 = 8;

/// Length of ETR in bits.
pub const ETR_BITS: u32 = 2;

/// Length of SSS in bits.
pub const SSS_BITS: u32 = 2;

/// UFEP value that announces OPPTYPE.
pub const UFEP_FULL: u32 = 0b001;

/// UFEP value without OPPTYPE: modes are carried over.
pub const UFEP_MANDATORY_ONLY: u32 = 0b000;

/// OPPTYPE source format code that announces CPFMT.
pub const OPPTYPE_SRCFMT_CUSTOM: u32 = 0b110;

/// Pixel aspect ratio code that announces EPAR.
pub const PAR_CODE_EXTENDED: u32 = 0b1111;

/// Picture type of MPPTYPE.
#[derive(Clone, Copy, Debug, PartialEq, Eq, Structural)]
pub enum PlusPictureType {
    Intra,
    Inter,
    ImprovedPb,
    BPicture,
    EiPicture,
    EpPicture,
}

/// Source format of OPPTYPE.
#[derive(Clone, Copy, Debug, PartialEq, Eq, Structural)]
pub enum PlusSourceFormat {
    SubQcif,
    Qcif,
    Cif,
    Cif4,
    Cif16,
    /// CPFMT carries the dimensions.
    Custom,
}

impl PlusSourceFormat {
    /// Luma width and height; a custom format has none of its own.
    pub open spec fn dimensions(self) -> Option<(u32, u32)> {
        match self {
            PlusSourceFormat::SubQcif => Some((128, 96)),
            PlusSourceFormat::Qcif => Some((176, 144)),
            PlusSourceFormat::Cif => Some((352, 288)),
            PlusSourceFormat::Cif4 => Some((704, 576)),
            PlusSourceFormat::Cif16 => Some((1408, 1152)),
            PlusSourceFormat::Custom => None,
        }
    }

    /// Luma width and height; a custom format has none of its own.
    pub fn luma_dimensions(self) -> (d: Option<(u32, u32)>)
        ensures
            d == self.dimensions(),
    {
        match self {
            PlusSourceFormat::SubQcif => Some((128, 96)),
            PlusSourceFormat::Qcif => Some((176, 144)),
            PlusSourceFormat::Cif => Some((352, 288)),
            PlusSourceFormat::Cif4 => Some((704, 576)),
            PlusSourceFormat::Cif16 => Some((1408, 1152)),
            PlusSourceFormat::Custom => None,
        }
    }
}

/// Optional part of PLUSPTYPE.
#[derive(Clone, Copy, Debug, PartialEq, Eq, Structural)]
pub struct Opptype {
    pub source_format: PlusSourceFormat,
    /// A custom picture clock frequency is in use.
    pub custom_pcf: bool,
    /// Unrestricted motion vectors.
    pub umv: bool,
    /// Syntax-based arithmetic coding.
    pub sac: bool,
    pub advanced_prediction: bool,
    /// Advanced INTRA coding.
    pub advanced_intra: bool,
    pub deblocking: bool,
    pub slice_structured: bool,
    pub reference_picture_selection: bool,
    pub independent_segment_decoding: bool,
    pub alternative_inter_vlc: bool,
    pub modified_quantization: bool,
}

/// Mandatory part of PLUSPTYPE.
#[derive(Clone, Copy, Debug, PartialEq, Eq, Structural)]
pub struct Mpptype {
    pub picture_type: PlusPictureType,
    pub reference_picture_resampling: bool,
    pub reduced_resolution_update: bool,
    pub rounding_type: bool,
}

/// Custom picture format.
#[derive(Clone, Copy, Debug, PartialEq, Eq, Structural)]
pub struct CustomPictureFormat {
    /// Pixel aspect ratio code.
    pub par_code: u8,
    /// One less than a quarter of the width.
    pub width_indication: u16,
    /// A quarter of the height.
    pub height_indication: u16,
}

impl CustomPictureFormat {
    /// Luma width in pixels.
    pub fn luma_width(self) -> (w: u32)
        ensures
            w == 4 * (self.width_indication + 1),
    {
        (self.width_indication as u32 + 1) * 4
    }

    /// Luma height in lines.
    pub fn luma_height(self) -> (h: u32)
        ensures
            h == 4 * self.height_indication,
    {
        self.height_indication as u32 * 4
    }
}

/// Extended pixel aspect ratio.
#[derive(Clone, Copy, Debug, PartialEq, Eq, Structural)]
pub struct ExtendedPar {
    pub width: u8,
    pub height: u8,
}

/// Custom picture clock frequency.
#[derive(Clone, Copy, Debug, PartialEq, Eq, Structural)]
pub struct CustomPcf {
    /// The clock conversion factor is 1001 rather than 1000.
    pub conversion_1001: bool,
    pub divisor: u8,
}

/// How far unrestricted motion vectors may reach.
#[derive(Clone, Copy, Debug, PartialEq, Eq, Structural)]
pub enum Uui {
    /// As far as a table allows.
    Limited,
    /// As far as the picture goes.
    Unlimited,
}

/// Submodes of slice structuring.
#[derive(Clone, Copy, Debug, PartialEq, Eq, Structural)]
pub struct SliceStructuredSubmode {
    /// Slices are rectangles rather than runs of macroblocks.
    pub rectangular: bool,
    /// Slices may come in any order.
    pub arbitrary_order: bool,
}

/// What a picture without OPPTYPE carries over from the last picture with one.
#[derive(Clone, Copy, Debug, PartialEq, Eq)]
pub struct InheritedExtendedState {
    pub source_format: Option<PlusSourceFormat>,
    /// Luma width and height, where the format is custom.
    pub custom_dimensions: Option<(u32, u32)>,
    pub custom_pcf: bool,
    pub umv: bool,
    pub advanced_prediction: bool,
    pub advanced_intra: bool,
    pub deblocking: bool,
}

impl InheritedExtendedState {
    /// The state of a fresh stream: no format, all modes off.
    pub open spec fn fresh() -> InheritedExtendedState {
        InheritedExtendedState {
            source_format: None,
            custom_dimensions: None,
            custom_pcf: false,
            umv: false,
            advanced_prediction: false,
            advanced_intra: false,
            deblocking: false,
        }
    }

    /// The state behind a picture with this OPPTYPE and CPFMT.
    pub open spec fn captured(
        o: Opptype,
        cpfmt: Option<CustomPictureFormat>,
    ) -> InheritedExtendedState {
        InheritedExtendedState {
            source_format: Some(o.source_format),
            custom_dimensions: match cpfmt {
                Some(c) => Some(
                    (
                        (4 * (c.width_indication + 1)) as u32,
                        (4 * c.height_indication) as u32,
                    ),
                ),
                None => None,
            },
            custom_pcf: o.custom_pcf,
            umv: o.umv,
            advanced_prediction: o.advanced_prediction,
            advanced_intra: o.advanced_intra,
            deblocking: o.deblocking,
        }
    }

    /// The state behind a picture with this OPPTYPE and no CPFMT.
    pub fn from_opptype(o: Opptype) -> (st: InheritedExtendedState)
        ensures
            st == Self::captured(o, None),
    {
        Self::from_opptype_with_cpfmt(o, None)
    }

    /// The state behind a picture with this OPPTYPE and CPFMT.
    pub fn from_opptype_with_cpfmt(
        o: Opptype,
        cpfmt: Option<CustomPictureFormat>,
    ) -> (st: InheritedExtendedState)
        ensures
            st == Self::captured(o, cpfmt),
    {
        InheritedExtendedState {
            source_format: Some(o.source_format),
            custom_dimensions: match cpfmt {
                Some(c) => Some((c.luma_width(), c.luma_height())),
                None => None,
            },
            custom_pcf: o.custom_pcf,
            umv: o.umv,
            advanced_prediction: o.advanced_prediction,
            advanced_intra: o.advanced_intra,
            deblocking: o.deblocking,
        }
    }
}

impl Default for InheritedExtendedState {
    fn default() -> (st: InheritedExtendedState)
        ensures
            st == InheritedExtendedState::fresh(),
    {
        InheritedExtendedState {
            source_format: None,
            custom_dimensions: None,
            custom_pcf: false,
            umv: false,
            advanced_prediction: false,
            advanced_intra: false,
            deblocking: false,
        }
    }
}

/// A parsed PLUSPTYPE and the fields that follow it; those not sent are
/// `None`.
#[derive(Clone, Copy, Debug, PartialEq, Eq, Structural)]
pub struct PlusPtypeHeader {
    pub ufep: u8,
    pub opptype: Option<Opptype>,
    pub mpptype: Mpptype,
    /// Continuous presence multipoint.
    pub cpm: bool,
    /// Sub-bitstream number.
    pub psbi: Option<u8>,
    pub cpfmt: Option<CustomPictureFormat>,
    pub epar: Option<ExtendedPar>,
    pub cpcfc: Option<CustomPcf>,
    /// Extended temporal reference.
    pub etr: Option<u8>,
    pub uui: Option<Uui>,
    pub sss: Option<SliceStructuredSubmode>,
}

impl PlusPtypeHeader {
    /// The source format that this picture sends.
    pub fn source_format(&self) -> (f: Option<PlusSourceFormat>)
        ensures
            f == (match self.opptype {
                Some(o) => Some(o.source_format),
                None => None,
            }),
    {
        match self.opptype {
            Some(o) => Some(o.source_format),
            None => None,
        }
    }

    /// A custom picture clock frequency is in use.
    pub fn custom_pcf(&self, inherited: InheritedExtendedState) -> (b: bool)
        ensures
            b == pcf_in_use(self.opptype, inherited),
    {
        match self.opptype {
            Some(o) => o.custom_pcf,
            None => inherited.custom_pcf,
        }
    }
}

/// A custom picture clock frequency is in use: this picture says so, or it says
/// nothing and the one that it carries its modes over from did.
pub open spec fn pcf_in_use(o: Option<Opptype>, inherited: InheritedExtendedState) -> bool {
    match o {
        Some(o) => o.custom_pcf,
        None => inherited.custom_pcf,
    }
}

/// The source format of an OPPTYPE code.
pub open spec fn plus_source_format(code: nat) -> PlusSourceFormat {
    if code == 1 {
        PlusSourceFormat::SubQcif
    } else if code == 2 {
        PlusSourceFormat::Qcif
    } else if code == 3 {
        PlusSourceFormat::Cif
    } else if code == 4 {
        PlusSourceFormat::Cif4
    } else if code == 5 {
        PlusSourceFormat::Cif16
    } else {
        PlusSourceFormat::Custom
    }
}

/// The picture type of an MPPTYPE code.
pub open spec fn plus_picture_type(code: nat) -> PlusPictureType {
    if code == 0 {
        PlusPictureType::Intra
    } else if code == 1 {
        PlusPictureType::Inter
    } else if code == 2 {
        PlusPictureType::ImprovedPb
    } else if code == 3 {
        PlusPictureType::BPicture
    } else if code == 4 {
        PlusPictureType::EiPicture
    } else {
        PlusPictureType::EpPicture
    }
}

/// What is wrong with the OPPTYPE at bit `at`.
#[verifier::opaque]
pub open spec fn opptype_error(s: Seq<bool>, at: int) -> Option<Error> {
    if !bits::has_bits(s, at, 18) {
        Some(Error::UnexpectedEof)
    } else if bits::field(s, at, 3) == 0 || bits::field(s, at, 3) == 7 || !s[at + 14] || s[at + 15]
        || s[at + 16] || s[at + 17] {
        Some(Error::PlusPtypeReservedField)
    } else {
        None
    }
}

/// The OPPTYPE at bit `at`.
#[verifier::opaque]
pub open spec fn opptype_at(s: Seq<bool>, at: int) -> Opptype {
    Opptype {
        source_format: plus_source_format(bits::field(s, at, 3)),
        custom_pcf: s[at + 3],
        umv: s[at + 4],
        sac: s[at + 5],
        advanced_prediction: s[at + 6],
        advanced_intra: s[at + 7],
        deblocking: s[at + 8],
        slice_structured: s[at + 9],
        reference_picture_selection: s[at + 10],
        independent_segment_decoding: s[at + 11],
        alternative_inter_vlc: s[at + 12],
        modified_quantization: s[at + 13],
    }
}

/// What is wrong with the MPPTYPE at bit `at`.
#[verifier::opaque]
pub open spec fn mpptype_error(s: Seq<bool>, at: int) -> Option<Error> {
    if !bits::has_bits(s, at, 9) {
        Some(Error::UnexpectedEof)
    } else if bits::field(s, at, 3) >= 6 || s[at + 6] || s[at + 7] || !s[at + 8] {
        Some(Error::PlusPtypeReservedField)
    } else {
        None
    }
}

/// The MPPTYPE at bit `at`.
#[verifier::opaque]
pub open spec fn mpptype_at(s: Seq<bool>, at: int) -> Mpptype {
    Mpptype {
        picture_type: plus_picture_type(bits::field(s, at, 3)),
        reference_picture_resampling: s[at + 3],
        reduced_resolution_update: s[at + 4],
        rounding_type: s[at + 5],
    }
}

/// What is wrong with the CPFMT at bit `at`.
#[verifier::opaque]
pub open spec fn cpfmt_error(s: Seq<bool>, at: int) -> Option<Error> {
    if !bits::has_bits(s, at, 23) {
        Some(Error::UnexpectedEof)
    } else if bits::field(s, at, 4) == 0 || !s[at + 13] || bits::field(s, at + 14, 9) == 0 {
        Some(Error::PlusPtypeReservedField)
    } else {
        None
    }
}

/// The CPFMT at bit `at`.
pub open spec fn cpfmt_at(s: Seq<bool>, at: int) -> CustomPictureFormat {
    CustomPictureFormat {
        par_code: bits::field(s, at, 4) as u8,
        width_indication: bits::field(s, at + 4, 9) as u16,
        height_indication: bits::field(s, at + 14, 9) as u16,
    }
}

/// What is wrong with the EPAR at bit `at`.
#[verifier::opaque]
pub open spec fn epar_error(s: Seq<bool>, at: int) -> Option<Error> {
    if !bits::has_bits(s, at, 16) {
        Some(Error::UnexpectedEof)
    } else if bits::field(s, at, 8) == 0 || bits::field(s, at + 8, 8) == 0 {
        Some(Error::PlusPtypeReservedField)
    } else {
        None
    }
}

/// The EPAR at bit `at`.
#[verifier::opaque]
pub open spec fn epar_at(s: Seq<bool>, at: int) -> ExtendedPar {
    ExtendedPar { width: bits::field(s, at, 8) as u8, height: bits::field(s, at + 8, 8) as u8 }
}

/// What is wrong with the CPCFC at bit `at`.
#[verifier::opaque]
pub open spec fn cpcfc_error(s: Seq<bool>, at: int) -> Option<Error> {
    if !bits::has_bits(s, at, 8) {
        Some(Error::UnexpectedEof)
    } else if bits::field(s, at + 1, 7) == 0 {
        Some(Error::PlusPtypeReservedField)
    } else {
        None
    }
}

/// The CPCFC at bit `at`.
#[verifier::opaque]
pub open spec fn cpcfc_at(s: Seq<bool>, at: int) -> CustomPcf {
    CustomPcf { conversion_1001: s[at], divisor: bits::field(s, at + 1, 7) as u8 }
}

/// What is wrong with the UUI at bit `at`.
#[verifier::opaque]
pub open spec fn uui_error(s: Seq<bool>, at: int) -> Option<Error> {
    if !bits::has_bits(s, at, 1) {
        Some(Error::UnexpectedEof)
    } else if s[at] {
        None
    } else if !bits::has_bits(s, at, 2) {
        Some(Error::UnexpectedEof)
    } else if !s[at + 1] {
        Some(Error::PlusPtypeReservedField)
    } else {
        None
    }
}

/// The UUI at bit `at`.
pub open spec fn uui_at(s: Seq<bool>, at: int) -> Uui {
    if s[at] {
        Uui::Limited
    } else {
        Uui::Unlimited
    }
}

/// The SSS at bit `at`.
pub open spec fn sss_at(s: Seq<bool>, at: int) -> SliceStructuredSubmode {
    SliceStructuredSubmode { rectangular: s[at], arbitrary_order: s[at + 1] }
}

/// Which fields an extended picture header has, and where they begin.
pub struct Layout {
    pub opptype: Option<Opptype>,
    pub mpptype: int,
    pub psbi: int,
    pub has_psbi: bool,
    pub cpfmt: int,
    pub has_cpfmt: bool,
    pub epar: int,
    pub has_epar: bool,
    pub cpcfc: int,
    pub has_cpcfc: bool,
    pub etr: int,
    pub has_etr: bool,
    pub uui: int,
    pub has_uui: bool,
    pub sss: int,
    pub has_sss: bool,
    pub end: int,
}

/// The layout of the extended picture header at bit `at`.
pub open spec fn layout(s: Seq<bool>, at: int, inherited: InheritedExtendedState) -> Layout {
    let opptype = if bits::field(s, at, 3) == UFEP_FULL {
        Some(opptype_at(s, at + 3))
    } else {
        None
    };
    let mpptype = if opptype is Some {
        at + 21
    } else {
        at + 3
    };
    let psbi = mpptype + 10;
    let has_psbi = s[mpptype + 9];
    let cpfmt = if has_psbi {
        psbi + 2
    } else {
        psbi
    };
    let has_cpfmt = opptype is Some && opptype->0.source_format == PlusSourceFormat::Custom;
    let epar = if has_cpfmt {
        cpfmt + 23
    } else {
        cpfmt
    };
    let has_epar = has_cpfmt && bits::field(s, cpfmt, 4) == PAR_CODE_EXTENDED;
    let cpcfc = if has_epar {
        epar + 16
    } else {
        epar
    };
    let has_cpcfc = opptype is Some && opptype->0.custom_pcf;
    let etr = if has_cpcfc {
        cpcfc + 8
    } else {
        cpcfc
    };
    let has_etr = pcf_in_use(opptype, inherited);
    let uui = if has_etr {
        etr + 2
    } else {
        etr
    };
    let has_uui = opptype is Some && opptype->0.umv;
    let sss = if !has_uui {
        uui
    } else if s[uui] {
        uui + 1
    } else {
        uui + 2
    };
    let has_sss = opptype is Some && opptype->0.slice_structured;
    let end = if has_sss {
        sss + 2
    } else {
        sss
    };
    Layout {
        opptype,
        mpptype,
        psbi,
        has_psbi,
        cpfmt,
        has_cpfmt,
        epar,
        has_epar,
        cpcfc,
        has_cpcfc,
        etr,
        has_etr,
        uui,
        has_uui,
        sss,
        has_sss,
        end,
    }
}

/// The header asks for fields whose layout is negotiated elsewhere: reference
/// picture selection, resampling or a scalability layer.
pub open spec fn is_layered(o: Option<Opptype>, m: Mpptype) -> bool {
    ||| o is Some && o->0.reference_picture_selection
    ||| m.reference_picture_resampling
    ||| m.picture_type == PlusPictureType::BPicture
    ||| m.picture_type == PlusPictureType::EiPicture
    ||| m.picture_type == PlusPictureType::EpPicture
}

/// The first thing that is wrong with the extended picture header at bit `at`.
pub open spec fn plus_ptype_error(
    s: Seq<bool>,
    at: int,
    inherited: InheritedExtendedState,
) -> Option<Error> {
    let l = layout(s, at, inherited);
    if !bits::has_bits(s, at, 3) {
        Some(Error::UnexpectedEof)
    } else if bits::field(s, at, 3) > 1 {
        Some(Error::PlusPtypeReservedField)
    } else if l.opptype is Some && opptype_error(s, at + 3) is Some {
        opptype_error(s, at + 3)
    } else if mpptype_error(s, l.mpptype) is Some {
        mpptype_error(s, l.mpptype)
    } else if !bits::has_bits(s, l.mpptype, 10) || (l.has_psbi && !bits::has_bits(s, l.psbi, 2)) {
        Some(Error::UnexpectedEof)
    } else if l.has_cpfmt && cpfmt_error(s, l.cpfmt) is Some {
        cpfmt_error(s, l.cpfmt)
    } else if l.has_epar && epar_error(s, l.epar) is Some {
        epar_error(s, l.epar)
    } else if l.has_cpcfc && cpcfc_error(s, l.cpcfc) is Some {
        cpcfc_error(s, l.cpcfc)
    } else if l.has_etr && !bits::has_bits(s, l.etr, 2) {
        Some(Error::UnexpectedEof)
    } else if l.has_uui && uui_error(s, l.uui) is Some {
        uui_error(s, l.uui)
    } else if l.has_sss && !bits::has_bits(s, l.sss, 2) {
        Some(Error::UnexpectedEof)
    } else if is_layered(l.opptype, mpptype_at(s, l.mpptype)) {
        Some(Error::PlusPtypeUnsupported)
    } else {
        None
    }
}

/// The extended picture header at bit `at`.
pub open spec fn plus_ptype_at(
    s: Seq<bool>,
    at: int,
    inherited: InheritedExtendedState,
) -> PlusPtypeHeader {
    let l = layout(s, at, inherited);
    PlusPtypeHeader {
        ufep: bits::field(s, at, 3) as u8,
        opptype: l.opptype,
        mpptype: mpptype_at(s, l.mpptype),
        cpm: l.has_psbi,
        psbi: if l.has_psbi {
            Some(bits::field(s, l.psbi, 2) as u8)
        } else {
            None
        },
        cpfmt: if l.has_cpfmt {
            Some(cpfmt_at(s, l.cpfmt))
        } else {
            None
        },
        epar: if l.has_epar {
            Some(epar_at(s, l.epar))
        } else {
            None
        },
        cpcfc: if l.has_cpcfc {
            Some(cpcfc_at(s, l.cpcfc))
        } else {
            None
        },
        etr: if l.has_etr {
            Some(bits::field(s, l.etr, 2) as u8)
        } else {
            None
        },
        uui: if l.has_uui {
            Some(uui_at(s, l.uui))
        } else {
            None
        },
        sss: if l.has_sss {
            Some(sss_at(s, l.sss))
        } else {
            None
        },
    }
}

proof fn lemma_opptype_begins(t: Seq<bool>, s: Seq<bool>, at: int)
    requires
        bits::begins(t, s),
        0 <= at,
        bits::has_bits(t, at, 18),
    ensures
        opptype_error(t, at) == opptype_error(s, at),
        opptype_at(t, at) == opptype_at(s, at),
{
    reveal(opptype_error);
    reveal(opptype_at);
    bits::lemma_field_begins(t, s, at, 3);
}

proof fn lemma_mpptype_begins(t: Seq<bool>, s: Seq<bool>, at: int)
    requires
        bits::begins(t, s),
        0 <= at,
        bits::has_bits(t, at, 9),
    ensures
        mpptype_error(t, at) == mpptype_error(s, at),
        mpptype_at(t, at) == mpptype_at(s, at),
{
    reveal(mpptype_error);
    reveal(mpptype_at);
    bits::lemma_field_begins(t, s, at, 3);
}

proof fn lemma_cpfmt_begins(t: Seq<bool>, s: Seq<bool>, at: int)
    requires
        bits::begins(t, s),
        0 <= at,
        bits::has_bits(t, at, 23),
    ensures
        bits::field(t, at, 4) == bits::field(s, at, 4),
        cpfmt_error(t, at) == cpfmt_error(s, at),
        cpfmt_at(t, at) == cpfmt_at(s, at),
{
    reveal(cpfmt_error);
    bits::lemma_field_begins(t, s, at, 4);
    bits::lemma_field_begins(t, s, at + 4, 9);
    bits::lemma_field_begins(t, s, at + 14, 9);
}

proof fn lemma_epar_begins(t: Seq<bool>, s: Seq<bool>, at: int)
    requires
        bits::begins(t, s),
        0 <= at,
        bits::has_bits(t, at, 16),
    ensures
        epar_error(t, at) == epar_error(s, at),
        epar_at(t, at) == epar_at(s, at),
{
    reveal(epar_error);
    reveal(epar_at);
    bits::lemma_field_begins(t, s, at, 8);
    bits::lemma_field_begins(t, s, at + 8, 8);
}

proof fn lemma_cpcfc_begins(t: Seq<bool>, s: Seq<bool>, at: int)
    requires
        bits::begins(t, s),
        0 <= at,
        bits::has_bits(t, at, 8),
    ensures
        cpcfc_error(t, at) == cpcfc_error(s, at),
        cpcfc_at(t, at) == cpcfc_at(s, at),
{
    reveal(cpcfc_error);
    reveal(cpcfc_at);
    bits::lemma_field_begins(t, s, at + 1, 7);
}

proof fn lemma_uui_begins(t: Seq<bool>, s: Seq<bool>, at: int)
    requires
        bits::begins(t, s),
        0 <= at,
        bits::has_bits(t, at, if s[at] {
            1
        } else {
            2
        }),
    ensures
        uui_error(t, at) == uui_error(s, at),
        uui_at(t, at) == uui_at(s, at),
        t[at] == s[at],
{
    reveal(uui_error);
}

/// A stream's beginning that holds its extended picture header has every field
/// of it at the same place.
#[verifier::spinoff_prover]
proof fn lemma_layout_begins(
    t: Seq<bool>,
    s: Seq<bool>,
    at: int,
    inherited: InheritedExtendedState,
)
    requires
        bits::begins(t, s),
        0 <= at,
        layout(s, at, inherited).end <= t.len(),
    ensures
        layout(t, at, inherited) == layout(s, at, inherited),
{
    let l = layout(s, at, inherited);
    let m = layout(t, at, inherited);
    bits::lemma_field_begins(t, s, at, 3);
    if l.opptype is Some {
        lemma_opptype_begins(t, s, at + 3);
    }
    assert(m.opptype == l.opptype);
    assert(t[l.mpptype + 9] == s[l.mpptype + 9]);
    assert(m.cpfmt == l.cpfmt);
    if l.has_cpfmt {
        lemma_cpfmt_begins(t, s, l.cpfmt);
    }
    assert(m.has_epar == l.has_epar);
    assert(m.uui == l.uui);
    if l.has_uui {
        lemma_uui_begins(t, s, l.uui);
    }
    assert(m.sss == l.sss);
}

/// A stream's beginning that holds its extended picture header has nothing
/// wrong with it that the stream has not.
#[verifier::spinoff_prover]
proof fn lemma_plus_ptype_error_begins(
    t: Seq<bool>,
    s: Seq<bool>,
    at: int,
    inherited: InheritedExtendedState,
)
    requires
        bits::begins(t, s),
        0 <= at,
        layout(t, at, inherited) == layout(s, at, inherited),
        layout(s, at, inherited).end <= t.len(),
        plus_ptype_error(s, at, inherited) is None,
    ensures
        plus_ptype_error(t, at, inherited) is None,
{
    let l = layout(s, at, inherited);
    bits::lemma_field_begins(t, s, at, 3);
    if l.opptype is Some {
        lemma_opptype_begins(t, s, at + 3);
    }
    lemma_mpptype_begins(t, s, l.mpptype);
    if l.has_cpfmt {
        lemma_cpfmt_begins(t, s, l.cpfmt);
    }
    if l.has_epar {
        lemma_epar_begins(t, s, l.epar);
    }
    if l.has_cpcfc {
        lemma_cpcfc_begins(t, s, l.cpcfc);
    }
    if l.has_uui {
        lemma_uui_begins(t, s, l.uui);
    }
}

/// A stream's beginning that holds its extended picture header has the same
/// one.
#[verifier::spinoff_prover]
pub proof fn lemma_plus_ptype_begins(
    t: Seq<bool>,
    s: Seq<bool>,
    at: int,
    inherited: InheritedExtendedState,
)
    requires
        bits::begins(t, s),
        0 <= at,
        layout(s, at, inherited).end <= t.len(),
        plus_ptype_error(s, at, inherited) is None,
    ensures
        layout(t, at, inherited) == layout(s, at, inherited),
        plus_ptype_error(t, at, inherited) is None,
        plus_ptype_at(t, at, inherited) == plus_ptype_at(s, at, inherited),
{
    let l = layout(s, at, inherited);
    lemma_layout_begins(t, s, at, inherited);
    lemma_plus_ptype_error_begins(t, s, at, inherited);
    bits::lemma_field_begins(t, s, at, 3);
    lemma_mpptype_begins(t, s, l.mpptype);
    if l.has_psbi {
        bits::lemma_field_begins(t, s, l.psbi, 2);
    }
    if l.has_cpfmt {
        lemma_cpfmt_begins(t, s, l.cpfmt);
    }
    if l.has_epar {
        lemma_epar_begins(t, s, l.epar);
    }
    if l.has_cpcfc {
        lemma_cpcfc_begins(t, s, l.cpcfc);
    }
    if l.has_etr {
        bits::lemma_field_begins(t, s, l.etr, 2);
    }
}

fn parse_opptype(reader: &mut BitReader<'_>) -> (res: Result<Opptype, Error>)
    ensures
        ({
            let s = bits::stream(*old(reader));
            let at = bits::bits_read(*old(reader)) as int;
            &&& res == match opptype_error(s, at) {
                Some(e) => Err(e),
                None => Ok(opptype_at(s, at)),
            }
            &&& res is Ok ==> bits::advanced(*old(reader), *final(reader), 18)
            &&& bits::moved_on(*old(reader), *final(reader))
        }),
{
    proof {
        reveal(opptype_error);
        reveal(opptype_at);
    }
    let ghost s = bits::stream(*reader);
    let ghost at = bits::bits_read(*reader) as int;
    let raw: u32 = bits::read_field(reader, OPPTYPE_BITS)?;
    let format = match bits::subfield(raw, OPPTYPE_BITS, 0, 3, Ghost(s), Ghost(at)) {
        1 => PlusSourceFormat::SubQcif,
        2 => PlusSourceFormat::Qcif,
        3 => PlusSourceFormat::Cif,
        4 => PlusSourceFormat::Cif4,
        5 => PlusSourceFormat::Cif16,
        6 => PlusSourceFormat::Custom,
        _ => {
            proof {
                vstd::arithmetic::power2::lemma2_to64();
            }
            return Err(Error::PlusPtypeReservedField);
        },
    };
    if !bits::subflag(raw, OPPTYPE_BITS, 14, Ghost(s), Ghost(at)) {
        return Err(Error::PlusPtypeReservedField);
    }
    if bits::subflag(raw, OPPTYPE_BITS, 15, Ghost(s), Ghost(at)) || bits::subflag(
        raw,
        OPPTYPE_BITS,
        16,
        Ghost(s),
        Ghost(at),
    ) || bits::subflag(raw, OPPTYPE_BITS, 17, Ghost(s), Ghost(at)) {
        return Err(Error::PlusPtypeReservedField);
    }
    Ok(
        Opptype {
            source_format: format,
            custom_pcf: bits::subflag(raw, OPPTYPE_BITS, 3, Ghost(s), Ghost(at)),
            umv: bits::subflag(raw, OPPTYPE_BITS, 4, Ghost(s), Ghost(at)),
            sac: bits::subflag(raw, OPPTYPE_BITS, 5, Ghost(s), Ghost(at)),
            advanced_prediction: bits::subflag(raw, OPPTYPE_BITS, 6, Ghost(s), Ghost(at)),
            advanced_intra: bits::subflag(raw, OPPTYPE_BITS, 7, Ghost(s), Ghost(at)),
            deblocking: bits::subflag(raw, OPPTYPE_BITS, 8, Ghost(s), Ghost(at)),
            slice_structured: bits::subflag(raw, OPPTYPE_BITS, 9, Ghost(s), Ghost(at)),
            reference_picture_selection: bits::subflag(
                raw,
                OPPTYPE_BITS,
                10,
                Ghost(s),
                Ghost(at),
            ),
            independent_segment_decoding: bits::subflag(
                raw,
                OPPTYPE_BITS,
                11,
                Ghost(s),
                Ghost(at),
            ),
            alternative_inter_vlc: bits::subflag(raw, OPPTYPE_BITS, 12, Ghost(s), Ghost(at)),
            modified_quantization: bits::subflag(raw, OPPTYPE_BITS, 13, Ghost(s), Ghost(at)),
        },
    )
}

fn parse_mpptype(reader: &mut BitReader<'_>) -> (res: Result<Mpptype, Error>)
    ensures
        ({
            let s = bits::stream(*old(reader));
            let at = bits::bits_read(*old(reader)) as int;
            &&& res == match mpptype_error(s, at) {
                Some(e) => Err(e),
                None => Ok(mpptype_at(s, at)),
            }
            &&& res is Ok ==> bits::advanced(*old(reader), *final(reader), 9)
            &&& bits::moved_on(*old(reader), *final(reader))
        }),
{
    proof {
        reveal(mpptype_error);
        reveal(mpptype_at);
    }
    let ghost s = bits::stream(*reader);
    let ghost at = bits::bits_read(*reader) as int;
    let raw: u32 = bits::read_field(reader, MPPTYPE_BITS)?;
    let picture_type = match bits::subfield(raw, MPPTYPE_BITS, 0, 3, Ghost(s), Ghost(at)) {
        0 => PlusPictureType::Intra,
        1 => PlusPictureType::Inter,
        2 => PlusPictureType::ImprovedPb,
        3 => PlusPictureType::BPicture,
        4 => PlusPictureType::EiPicture,
        5 => PlusPictureType::EpPicture,
        _ => return Err(Error::PlusPtypeReservedField),
    };
    if bits::subflag(raw, MPPTYPE_BITS, 6, Ghost(s), Ghost(at)) || bits::subflag(
        raw,
        MPPTYPE_BITS,
        7,
        Ghost(s),
        Ghost(at),
    ) {
        return Err(Error::PlusPtypeReservedField);
    }
    if !bits::subflag(raw, MPPTYPE_BITS, 8, Ghost(s), Ghost(at)) {
        return Err(Error::PlusPtypeReservedField);
    }
    Ok(
        Mpptype {
            picture_type,
            reference_picture_resampling: bits::subflag(
                raw,
                MPPTYPE_BITS,
                3,
                Ghost(s),
                Ghost(at),
            ),
            reduced_resolution_update: bits::subflag(raw, MPPTYPE_BITS, 4, Ghost(s), Ghost(at)),
            rounding_type: bits::subflag(raw, MPPTYPE_BITS, 5, Ghost(s), Ghost(at)),
        },
    )
}

fn parse_cpfmt(reader: &mut BitReader<'_>) -> (res: Result<CustomPictureFormat, Error>)
    ensures
        ({
            let s = bits::stream(*old(reader));
            let at = bits::bits_read(*old(reader)) as int;
            &&& res == match cpfmt_error(s, at) {
                Some(e) => Err(e),
                None => Ok(cpfmt_at(s, at)),
            }
            &&& res is Ok ==> bits::advanced(*old(reader), *final(reader), 23)
            &&& res matches Ok(c) ==> c.par_code == bits::field(s, at, 4)
            &&& bits::moved_on(*old(reader), *final(reader))
        }),
{
    proof {
        reveal(cpfmt_error);
    }
    let ghost s = bits::stream(*reader);
    let ghost at = bits::bits_read(*reader) as int;
    let raw: u32 = bits::read_field(reader, CPFMT_BITS)?;
    proof {
        vstd::arithmetic::power2::lemma2_to64();
    }
    let par_code: u32 = bits::subfield(raw, CPFMT_BITS, 0, 4, Ghost(s), Ghost(at));
    if par_code == 0 {
        return Err(Error::PlusPtypeReservedField);
    }
    let width: u32 = bits::subfield(raw, CPFMT_BITS, 4, 9, Ghost(s), Ghost(at));
    if !bits::subflag(raw, CPFMT_BITS, 13, Ghost(s), Ghost(at)) {
        return Err(Error::PlusPtypeReservedField);
    }
    let height: u32 = bits::subfield(raw, CPFMT_BITS, 14, 9, Ghost(s), Ghost(at));
    if height == 0 {
        return Err(Error::PlusPtypeReservedField);
    }
    Ok(
        CustomPictureFormat {
            par_code: par_code as u8,
            width_indication: width as u16,
            height_indication: height as u16,
        },
    )
}

fn parse_epar(reader: &mut BitReader<'_>) -> (res: Result<ExtendedPar, Error>)
    ensures
        ({
            let s = bits::stream(*old(reader));
            let at = bits::bits_read(*old(reader)) as int;
            &&& res == match epar_error(s, at) {
                Some(e) => Err(e),
                None => Ok(epar_at(s, at)),
            }
            &&& res is Ok ==> bits::advanced(*old(reader), *final(reader), 16)
            &&& bits::moved_on(*old(reader), *final(reader))
        }),
{
    proof {
        reveal(epar_error);
        reveal(epar_at);
    }
    let ghost s = bits::stream(*reader);
    let ghost at = bits::bits_read(*reader) as int;
    let raw: u32 = bits::read_field(reader, EPAR_BITS)?;
    proof {
        vstd::arithmetic::power2::lemma2_to64();
    }
    let width: u32 = bits::subfield(raw, EPAR_BITS, 0, 8, Ghost(s), Ghost(at));
    let height: u32 = bits::subfield(raw, EPAR_BITS, 8, 8, Ghost(s), Ghost(at));
    if width == 0 || height == 0 {
        return Err(Error::PlusPtypeReservedField);
    }
    Ok(ExtendedPar { width: width as u8, height: height as u8 })
}

fn parse_cpcfc(reader: &mut BitReader<'_>) -> (res: Result<CustomPcf, Error>)
    ensures
        ({
            let s = bits::stream(*old(reader));
            let at = bits::bits_read(*old(reader)) as int;
            &&& res == match cpcfc_error(s, at) {
                Some(e) => Err(e),
                None => Ok(cpcfc_at(s, at)),
            }
            &&& res is Ok ==> bits::advanced(*old(reader), *final(reader), 8)
            &&& bits::moved_on(*old(reader), *final(reader))
        }),
{
    proof {
        reveal(cpcfc_error);
        reveal(cpcfc_at);
    }
    let ghost s = bits::stream(*reader);
    let ghost at = bits::bits_read(*reader) as int;
    let raw: u32 = bits::read_field(reader, CPCFC_BITS)?;
    proof {
        vstd::arithmetic::power2::lemma2_to64();
    }
    let conversion_1001 = bits::subflag(raw, CPCFC_BITS, 0, Ghost(s), Ghost(at));
    let divisor: u32 = bits::subfield(raw, CPCFC_BITS, 1, 7, Ghost(s), Ghost(at));
    if divisor == 0 {
        return Err(Error::PlusPtypeReservedField);
    }
    Ok(CustomPcf { conversion_1001, divisor: divisor as u8 })
}

fn parse_uui(reader: &mut BitReader<'_>) -> (res: Result<Uui, Error>)
    ensures
        ({
            let s = bits::stream(*old(reader));
            let at = bits::bits_read(*old(reader)) as int;
            &&& res == match uui_error(s, at) {
                Some(e) => Err(e),
                None => Ok(uui_at(s, at)),
            }
            &&& res is Ok ==> bits::advanced(
                *old(reader),
                *final(reader),
                if s[at] {
                    1
                } else {
                    2
                },
            )
            &&& bits::moved_on(*old(reader), *final(reader))
        }),
{
    proof {
        reveal(uui_error);
    }
    if bits::read_flag(reader)? {
        return Ok(Uui::Limited);
    }
    if bits::read_flag(reader)? {
        Ok(Uui::Unlimited)
    } else {
        Err(Error::PlusPtypeReservedField)
    }
}

/// Parse PLUSPTYPE and the fields that follow it, from the first bit of UFEP
/// on.
#[verifier::spinoff_prover]
#[verifier::rlimit(50)]
pub fn parse_plus_ptype(
    reader: &mut BitReader<'_>,
    inherited: InheritedExtendedState,
) -> (res: Result<PlusPtypeHeader, Error>)
    ensures
        ({
            let s = bits::stream(*old(reader));
            let at = bits::bits_read(*old(reader)) as int;
            &&& res == match plus_ptype_error(s, at, inherited) {
                Some(e) => Err(e),
                None => Ok(plus_ptype_at(s, at, inherited)),
            }
            &&& res is Ok ==> bits::advanced(
                *old(reader),
                *final(reader),
                layout(s, at, inherited).end - at,
            )
            &&& bits::moved_on(*old(reader), *final(reader))
        }),
{
    let ghost s = bits::stream(*reader);
    let ghost at = bits::bits_read(*reader) as int;
    let ghost l = layout(s, at, inherited);
    proof {
        vstd::arithmetic::power2::lemma2_to64();
    }
    let ufep: u32 = bits::read_field(reader, UFEP_BITS)?;
    let opptype = match ufep {
        UFEP_MANDATORY_ONLY => None,
        UFEP_FULL => Some(parse_opptype(reader)?),
        _ => return Err(Error::PlusPtypeReservedField),
    };
    let mpptype = parse_mpptype(reader)?;
    let cpm = bits::read_flag(reader)?;
    assert(bits::bits_read(*reader) == l.psbi);
    let psbi = if cpm {
        Some(bits::read_field(reader, 2)? as u8)
    } else {
        None
    };
    let custom_source = match opptype {
        Some(o) => o.source_format == PlusSourceFormat::Custom,
        None => false,
    };
    assert(bits::bits_read(*reader) == l.cpfmt);
    let cpfmt = if custom_source {
        Some(parse_cpfmt(reader)?)
    } else {
        None
    };
    assert(bits::bits_read(*reader) == l.epar);
    let epar = match cpfmt {
        Some(c) => if c.par_code as u32 == PAR_CODE_EXTENDED {
            Some(parse_epar(reader)?)
        } else {
            None
        },
        None => None,
    };
    let (custom_pcf_sent, custom_pcf_in_use) = match opptype {
        Some(o) => (o.custom_pcf, o.custom_pcf),
        None => (false, inherited.custom_pcf),
    };
    assert(bits::bits_read(*reader) == l.cpcfc);
    let cpcfc = if custom_pcf_sent {
        Some(parse_cpcfc(reader)?)
    } else {
        None
    };
    assert(bits::bits_read(*reader) == l.etr);
    let etr = if custom_pcf_in_use {
        Some(bits::read_field(reader, ETR_BITS)? as u8)
    } else {
        None
    };
    let umv_on = match opptype {
        Some(o) => o.umv,
        None => false,
    };
    assert(bits::bits_read(*reader) == l.uui);
    let uui = if umv_on {
        Some(parse_uui(reader)?)
    } else {
        None
    };
    let slices_on = match opptype {
        Some(o) => o.slice_structured,
        None => false,
    };
    assert(bits::bits_read(*reader) == l.sss);
    let sss = if slices_on {
        let raw: u32 = bits::read_field(reader, SSS_BITS)?;
        Some(
            SliceStructuredSubmode {
                rectangular: bits::subflag(raw, SSS_BITS, 0, Ghost(s), Ghost(l.sss)),
                arbitrary_order: bits::subflag(raw, SSS_BITS, 1, Ghost(s), Ghost(l.sss)),
            },
        )
    } else {
        None
    };
    let selection_on = match opptype {
        Some(o) => o.reference_picture_selection,
        None => false,
    };
    if selection_on {
        return Err(Error::PlusPtypeUnsupported);
    }
    if mpptype.reference_picture_resampling {
        return Err(Error::PlusPtypeUnsupported);
    }
    if matches!(
        mpptype.picture_type,
        PlusPictureType::BPicture | PlusPictureType::EiPicture | PlusPictureType::EpPicture
    ) {
        return Err(Error::PlusPtypeUnsupported);
    }
    Ok(
        PlusPtypeHeader {
            ufep: ufep as u8,
            opptype,
            mpptype,
            cpm,
            psbi,
            cpfmt,
            epar,
            cpcfc,
            etr,
            uui,
            sss,
        },
    )
}

} // verus!
