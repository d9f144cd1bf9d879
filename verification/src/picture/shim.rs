//! Pictures with an extended type in terms of plain ones.
//!
//! The macroblock layers read the same few modes from either kind of header. A
//! picture with an extended type that keeps to supported modes is turned into a
//! plain header, a layout, options, and what decides between the decoders.

use super::frame::DecodeOptions;
use super::layout;
use super::layout::PictureLayout;
use crate::error::Error;
use crate::picture_header::{
    H263ExtendedPicture, H263PictureCodingType, H263PictureHeader, H263SourceFormat,
};
use crate::plus_ptype::{
    InheritedExtendedState, PlusPictureType, PlusSourceFormat, SliceStructuredSubmode, Uui,
};
use vstd::prelude::*;

verus! {

/// A picture with an extended type in terms of a plain one.
#[derive(Debug, Clone, Copy, PartialEq, Eq, Structural)]
pub struct PlusShimOutcome {
    pub header: H263PictureHeader,
    pub layout: PictureLayout,
    pub options: DecodeOptions,
    /// The submodes of slice structuring, where slices take the place of groups
    /// of blocks.
    pub slice_structured: Option<SliceStructuredSubmode>,
    /// The picture is an improved PB-frame.
    pub improved_pb: bool,
}

/// The modes in force: those that the picture sends, or those carried over.
pub struct Modes {
    pub source_format: Option<PlusSourceFormat>,
    pub custom_pcf: bool,
    pub umv: bool,
    pub advanced_prediction: bool,
    pub advanced_intra: bool,
    pub deblocking: bool,
    pub slice_structured: bool,
    /// A mode is on that is not supported.
    pub refused: bool,
}

/// The modes in force in a picture.
pub open spec fn modes(e: H263ExtendedPicture, inherited: InheritedExtendedState) -> Modes {
    match e.plus.opptype {
        Some(o) => Modes {
            source_format: Some(o.source_format),
            custom_pcf: o.custom_pcf,
            umv: o.umv,
            advanced_prediction: o.advanced_prediction,
            advanced_intra: o.advanced_intra,
            deblocking: o.deblocking,
            slice_structured: o.slice_structured,
            refused: o.sac || o.independent_segment_decoding || o.alternative_inter_vlc
                || o.modified_quantization,
        },
        None => Modes {
            source_format: inherited.source_format,
            custom_pcf: inherited.custom_pcf,
            umv: inherited.umv,
            advanced_prediction: inherited.advanced_prediction,
            advanced_intra: inherited.advanced_intra,
            deblocking: inherited.deblocking,
            slice_structured: false,
            refused: false,
        },
    }
}

/// The plain source format of one of an extended type; a custom one has none
/// and takes the reserved code.
pub open spec fn plain_format(f: PlusSourceFormat) -> H263SourceFormat {
    match f {
        PlusSourceFormat::SubQcif => H263SourceFormat::SubQcif,
        PlusSourceFormat::Qcif => H263SourceFormat::Qcif,
        PlusSourceFormat::Cif => H263SourceFormat::Cif,
        PlusSourceFormat::Cif4 => H263SourceFormat::Cif4,
        PlusSourceFormat::Cif16 => H263SourceFormat::Cif16,
        PlusSourceFormat::Custom => H263SourceFormat::Reserved110,
    }
}

/// The dimensions of a custom format: those that the picture sends, or those
/// carried over.
pub open spec fn custom_size(
    e: H263ExtendedPicture,
    inherited: InheritedExtendedState,
) -> Option<(u32, u32)> {
    match e.plus.cpfmt {
        Some(c) => Some(
            ((4 * (c.width_indication + 1)) as u32, (4 * c.height_indication) as u32),
        ),
        None => inherited.custom_dimensions,
    }
}

/// The layout of a picture with an extended type.
pub open spec fn plus_layout(
    e: H263ExtendedPicture,
    inherited: InheritedExtendedState,
) -> Option<PictureLayout> {
    match modes(e, inherited).source_format {
        None => None,
        Some(PlusSourceFormat::Custom) => match custom_size(e, inherited) {
            Some((w, h)) => layout::custom_layout(w as int, h as int),
            None => None,
        },
        Some(f) => layout::standard_layout(plain_format(f)),
    }
}

/// The picture's type is INTRA.
pub open spec fn plus_is_intra(e: H263ExtendedPicture) -> bool {
    e.plus.mpptype.picture_type == PlusPictureType::Intra
}

/// A picture can be decoded: its type is INTRA, INTER or improved PB, its
/// format is known, and it uses no mode that is not supported.
pub open spec fn plus_supported(
    e: H263ExtendedPicture,
    inherited: InheritedExtendedState,
) -> bool {
    let m = modes(e, inherited);
    let t = e.plus.mpptype.picture_type;
    &&& t == PlusPictureType::Intra || t == PlusPictureType::Inter || t
        == PlusPictureType::ImprovedPb
    &&& !m.refused
    &&& !m.custom_pcf
    &&& !e.plus.cpm
    &&& !e.plus.mpptype.reduced_resolution_update
    &&& plus_layout(e, inherited) is Some
    &&& m.umv && !plus_is_intra(e) && e.plus.opptype is Some ==> e.plus.uui == Some(Uui::Limited)
}

/// A picture that can be decoded in terms of a plain one. Unrestricted vectors
/// and advanced prediction do not apply in an INTRA picture; a mode of the
/// options is on where the picture or the caller turns it on.
pub open spec fn plus_as_plain(
    e: H263ExtendedPicture,
    options: DecodeOptions,
    inherited: InheritedExtendedState,
) -> PlusShimOutcome {
    let m = modes(e, inherited);
    let improved_pb = e.plus.mpptype.picture_type == PlusPictureType::ImprovedPb;
    PlusShimOutcome {
        header: H263PictureHeader {
            temporal_reference: e.prefix.temporal_reference,
            split_screen: e.prefix.split_screen,
            document_camera: e.prefix.document_camera,
            freeze_release: e.prefix.freeze_release,
            source_format: match m.source_format {
                Some(f) => plain_format(f),
                None => H263SourceFormat::Reserved110,
            },
            coding_type: if plus_is_intra(e) {
                H263PictureCodingType::Intra
            } else {
                H263PictureCodingType::Inter
            },
            umv_mode: m.umv && !plus_is_intra(e),
            sac_mode: false,
            advanced_prediction: m.advanced_prediction && !plus_is_intra(e),
            pb_frames: improved_pb,
        },
        layout: plus_layout(e, inherited).unwrap(),
        options: DecodeOptions {
            deblock: options.deblock || m.deblocking,
            aic: options.aic || m.advanced_intra,
        },
        slice_structured: if m.slice_structured {
            match e.plus.sss {
                Some(sss) => Some(sss),
                None => Some(
                    SliceStructuredSubmode { rectangular: false, arbitrary_order: false },
                ),
            }
        } else {
            None
        },
        improved_pb,
    }
}

/// What turning a picture with an extended type into a plain one gives.
pub open spec fn plus_shim(
    e: H263ExtendedPicture,
    options: DecodeOptions,
    inherited: InheritedExtendedState,
) -> Result<PlusShimOutcome, Error> {
    if plus_supported(e, inherited) {
        Ok(plus_as_plain(e, options, inherited))
    } else {
        Err(Error::NotImplemented)
    }
}

/// The plain format and the layout of a picture with an extended type.
fn resolve_format(
    e: &H263ExtendedPicture,
    format: PlusSourceFormat,
    inherited: InheritedExtendedState,
) -> (r: Option<(H263SourceFormat, PictureLayout)>)
    requires
        modes(*e, inherited).source_format == Some(format),
    ensures
        r is Some <==> plus_layout(*e, inherited) is Some,
        r matches Some((f, l)) ==> f == plain_format(format) && plus_layout(*e, inherited) == Some(
            l,
        ) && l.wf(),
{
    match format {
        PlusSourceFormat::Custom => {
            let size: Option<(u32, u32)> = match e.plus.cpfmt {
                Some(c) => Some((c.luma_width(), c.luma_height())),
                None => inherited.custom_dimensions,
            };
            let (w, h): (u32, u32) = size?;
            let l: PictureLayout = PictureLayout::for_custom_dimensions(w, h)?;
            Some((H263SourceFormat::Reserved110, l))
        },
        PlusSourceFormat::SubQcif => {
            let l: PictureLayout = PictureLayout::for_source_format(H263SourceFormat::SubQcif)?;
            Some((H263SourceFormat::SubQcif, l))
        },
        PlusSourceFormat::Qcif => {
            let l: PictureLayout = PictureLayout::for_source_format(H263SourceFormat::Qcif)?;
            Some((H263SourceFormat::Qcif, l))
        },
        PlusSourceFormat::Cif => {
            let l: PictureLayout = PictureLayout::for_source_format(H263SourceFormat::Cif)?;
            Some((H263SourceFormat::Cif, l))
        },
        PlusSourceFormat::Cif4 => {
            let l: PictureLayout = PictureLayout::for_source_format(H263SourceFormat::Cif4)?;
            Some((H263SourceFormat::Cif4, l))
        },
        PlusSourceFormat::Cif16 => {
            let l: PictureLayout = PictureLayout::for_source_format(H263SourceFormat::Cif16)?;
            Some((H263SourceFormat::Cif16, l))
        },
    }
}

/// Turn a picture with an extended type into a plain one, or refuse it.
pub fn plus_ptype_to_baseline_shim(
    extended: &H263ExtendedPicture,
    options: DecodeOptions,
    inherited: InheritedExtendedState,
) -> (res: Result<PlusShimOutcome, Error>)
    ensures
        res == plus_shim(*extended, options, inherited),
        res matches Ok(o) ==> o.layout.wf(),
{
    let improved_pb: bool = matches!(
        extended.plus.mpptype.picture_type,
        PlusPictureType::ImprovedPb
    );
    let coding_type: H263PictureCodingType = match extended.plus.mpptype.picture_type {
        PlusPictureType::Intra => H263PictureCodingType::Intra,
        PlusPictureType::Inter => H263PictureCodingType::Inter,
        PlusPictureType::ImprovedPb => H263PictureCodingType::Inter,
        _ => {
            return Err(Error::NotImplemented);
        },
    };
    let mut refused: bool = extended.plus.cpm || extended.plus.mpptype.reduced_resolution_update;
    let mut slices: bool = false;
    let source: Option<PlusSourceFormat>;
    let custom_pcf: bool;
    let umv: bool;
    let advanced_prediction: bool;
    let advanced_intra: bool;
    let deblocking: bool;
    match extended.plus.opptype {
        Some(o) => {
            source = Some(o.source_format);
            custom_pcf = o.custom_pcf;
            umv = o.umv;
            advanced_prediction = o.advanced_prediction;
            advanced_intra = o.advanced_intra;
            deblocking = o.deblocking;
            slices = o.slice_structured;
            refused = refused || o.sac || o.independent_segment_decoding || o.alternative_inter_vlc
                || o.modified_quantization;
        },
        None => {
            source = inherited.source_format;
            custom_pcf = inherited.custom_pcf;
            umv = inherited.umv;
            advanced_prediction = inherited.advanced_prediction;
            advanced_intra = inherited.advanced_intra;
            deblocking = inherited.deblocking;
        },
    }
    let format: PlusSourceFormat = match source {
        Some(f) => f,
        None => {
            return Err(Error::NotImplemented);
        },
    };
    if refused || custom_pcf {
        return Err(Error::NotImplemented);
    }
    let slice_structured: Option<SliceStructuredSubmode> = if slices {
        match extended.plus.sss {
            Some(sss) => Some(sss),
            None => Some(SliceStructuredSubmode { rectangular: false, arbitrary_order: false }),
        }
    } else {
        None
    };
    let inter: bool = matches!(coding_type, H263PictureCodingType::Inter);
    let umv_mode: bool = umv && inter;
    let (source_format, layout): (H263SourceFormat, PictureLayout) = match resolve_format(
        extended,
        format,
        inherited,
    ) {
        Some(r) => r,
        None => {
            return Err(Error::NotImplemented);
        },
    };
    if umv_mode && extended.plus.opptype.is_some() {
        match extended.plus.uui {
            Some(Uui::Limited) => {},
            _ => {
                return Err(Error::NotImplemented);
            },
        }
    }
    let header: H263PictureHeader = H263PictureHeader {
        temporal_reference: extended.prefix.temporal_reference,
        split_screen: extended.prefix.split_screen,
        document_camera: extended.prefix.document_camera,
        freeze_release: extended.prefix.freeze_release,
        source_format,
        coding_type,
        umv_mode,
        sac_mode: false,
        advanced_prediction: advanced_prediction && inter,
        pb_frames: improved_pb,
    };
    Ok(
        PlusShimOutcome {
            header,
            layout,
            options: DecodeOptions {
                deblock: options.deblock || deblocking,
                aic: options.aic || advanced_intra,
            },
            slice_structured,
            improved_pb,
        },
    )
}

/// The options that decoding runs with are never fewer than the caller's: the
/// picture can turn a mode on, and cannot turn one off.
pub proof fn options_are_only_added(
    e: H263ExtendedPicture,
    options: DecodeOptions,
    inherited: InheritedExtendedState,
)
    ensures
        plus_shim(e, options, inherited) matches Ok(o) ==> (options.deblock ==> o.options.deblock)
            && (options.aic ==> o.options.aic),
{
}

/// Whatever modes are carried over, unrestricted vectors and advanced prediction
/// are off in an INTRA picture.
pub proof fn intra_pictures_have_no_vector_modes(
    e: H263ExtendedPicture,
    options: DecodeOptions,
    inherited: InheritedExtendedState,
)
    requires
        plus_is_intra(e),
    ensures
        plus_shim(e, options, inherited) matches Ok(o) ==> !o.header.umv_mode
            && !o.header.advanced_prediction,
{
}

/// A picture that does not send its modes is refused where none have been
/// carried over.
pub proof fn modes_must_have_been_sent(e: H263ExtendedPicture, options: DecodeOptions)
    requires
        e.plus.opptype is None,
    ensures
        plus_shim(e, options, InheritedExtendedState::fresh()) == Err::<PlusShimOutcome, Error>(
            Error::NotImplemented,
        ),
{
}

} // verus!
