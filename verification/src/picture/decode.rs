//! Decoding of one picture from its bytes.

use super::b_part::PbTimes;
use super::frame;
use super::frame::{DecodeOptions, YuvFrame};
use super::gobs;
use super::gobs::decode_after_picture_header;
use super::layout;
use super::layout::PictureLayout;
use super::macroblocks;
use super::shim;
use super::shim::{plus_ptype_to_baseline_shim, PlusShimOutcome};
use super::slices;
use super::slices::decode_slice_structured_after_header;
use crate::bits;
use crate::bits::read_field;
use crate::error::Error;
use crate::picture_header;
use crate::picture_header::{
    parse_picture_header, parse_picture_layer, H263ExtendedPicture, H263PictureCodingType,
    H263PictureHeader, H263PictureLayer,
};
use crate::plus_ptype::{InheritedExtendedState, PlusPictureType};
use oxideav_core::bits::BitReader;
use vstd::prelude::*;

verus! {

/// A decoded picture, and what the next one carries over.
#[derive(Debug, Clone, PartialEq, Eq)]
pub struct DecodePictureOutcome {
    pub frame: YuvFrame,
    pub inherited: InheritedExtendedState,
}

/// The two pictures of a PB-frame.
#[derive(Debug, Clone, PartialEq, Eq)]
pub struct PbFramePair {
    /// The picture that the next one is predicted from.
    pub p_frame: YuvFrame,
    /// The picture shown before it, which nothing is predicted from.
    pub b_frame: YuvFrame,
}

/// A picture with a plain header, whose groups of blocks start at bit `at`.
pub open spec fn plain_picture(
    s: Seq<bool>,
    at: int,
    header: H263PictureHeader,
    reference: Option<frame::Planes>,
    options: DecodeOptions,
) -> Result<frame::Planes, Error> {
    match layout::standard_layout(header.source_format) {
        None => Err(Error::NotImplemented),
        Some(l) => match gobs::gob_picture(s, at, header, l, reference, options, None) {
            Err(e) => Err(e),
            Ok((p, _)) => Ok(p),
        },
    }
}

/// What decoding a picture with a plain header gives.
pub open spec fn decoded_picture(
    data: Seq<u8>,
    reference: Option<frame::Planes>,
    options: DecodeOptions,
) -> Result<frame::Planes, Error> {
    let s = bits::bits_of_bytes(data);
    match picture_header::parsed_picture_header(s, 0) {
        Err(e) => Err(e),
        Ok(h) => plain_picture(s, 43, h, reference, options),
    }
}

/// What the picture behind one with an extended header carries over.
pub open spec fn inherited_after(
    e: H263ExtendedPicture,
    inherited: InheritedExtendedState,
) -> InheritedExtendedState {
    match e.plus.opptype {
        Some(o) => InheritedExtendedState::captured(o, e.plus.cpfmt),
        None => inherited,
    }
}

/// A picture with an extended header, which ends at bit `at`.
pub open spec fn extended_picture(
    s: Seq<bool>,
    at: int,
    e: H263ExtendedPicture,
    reference: Option<frame::Planes>,
    options: DecodeOptions,
    inherited: InheritedExtendedState,
) -> Result<frame::Planes, Error> {
    match shim::plus_shim(e, options, inherited) {
        Err(x) => Err(x),
        Ok(o) => if o.improved_pb {
            Err(Error::NotImplemented)
        } else {
            match o.slice_structured {
                Some(sss) => slices::sliced_picture(
                    s,
                    at,
                    o.header,
                    o.layout,
                    sss,
                    reference,
                    o.options,
                ),
                None => match gobs::gob_picture(
                    s,
                    at,
                    o.header,
                    o.layout,
                    reference,
                    o.options,
                    None,
                ) {
                    Err(x) => Err(x),
                    Ok((p, _)) => Ok(p),
                },
            }
        },
    }
}

/// What decoding a picture with a header of either kind gives, and what the
/// next picture carries over: nothing behind a plain header.
pub open spec fn decoded_layer(
    data: Seq<u8>,
    reference: Option<frame::Planes>,
    options: DecodeOptions,
    inherited: InheritedExtendedState,
) -> Result<(frame::Planes, InheritedExtendedState), Error> {
    let s = bits::bits_of_bytes(data);
    match picture_header::parsed_picture_layer(s, 0, inherited) {
        Err(e) => Err(e),
        Ok(H263PictureLayer::Baseline(h)) => match plain_picture(s, 43, h, reference, options) {
            Err(e) => Err(e),
            Ok(p) => Ok((p, InheritedExtendedState::fresh())),
        },
        Ok(H263PictureLayer::Extended(x)) => match extended_picture(
            s,
            picture_header::picture_layer_end(s, 0, inherited),
            x,
            reference,
            options,
            inherited,
        ) {
            Err(e) => Err(e),
            Ok(p) => Ok((p, inherited_after(x, inherited))),
        },
    }
}

/// What a PB-frame's header says of its B-picture at bit `at`, where the
/// P-picture's time is `tr` and the previous picture's `prev_tr`.
pub open spec fn times_at(
    s: Seq<bool>,
    at: int,
    tr: u8,
    prev_tr: u8,
    annex_m: bool,
) -> Result<(PbTimes, int), Error> {
    let trd = (tr - prev_tr) % 256;
    match bits::field_at(s, at, 3) {
        Err(e) => Err(e),
        Ok((trb, p)) => if trb == 0 {
            Err(Error::BadPbTemporalReference)
        } else {
            match bits::field_at(s, p, 2) {
                Err(e) => Err(e),
                Ok((dbquant, end)) => if trd == 0 {
                    Err(Error::BadPbTemporalReference)
                } else {
                    Ok(
                        (
                            PbTimes {
                                trb: trb as i32,
                                trd: trd as i32,
                                dbquant: dbquant as u8,
                                annex_m,
                            },
                            end,
                        ),
                    )
                },
            }
        },
    }
}

/// A picture is no PB-frame, or uses a mode that does not go with one.
pub open spec fn pb_refused(h: H263PictureHeader, options: DecodeOptions) -> bool {
    !h.pb_frames || h.coding_type != H263PictureCodingType::Inter || h.advanced_prediction
        || h.sac_mode || options.aic
}

/// What decoding a PB-frame gives: the P-picture and the B-picture.
pub open spec fn decoded_pb(
    data: Seq<u8>,
    reference: frame::Planes,
    prev_tr: u8,
    options: DecodeOptions,
) -> Result<(frame::Planes, frame::Planes), Error> {
    let s = bits::bits_of_bytes(data);
    match picture_header::parsed_picture_header(s, 0) {
        Err(e) => Err(e),
        Ok(h) => if pb_refused(h, options) {
            Err(Error::NotImplemented)
        } else {
            match times_at(s, 43, h.temporal_reference, prev_tr, false) {
                Err(e) => Err(e),
                Ok((times, at)) => match layout::standard_layout(h.source_format) {
                    None => Err(Error::NotImplemented),
                    Some(l) => gobs::gob_picture(
                        s,
                        at,
                        h,
                        l,
                        Some(reference),
                        options,
                        Some(times),
                    ),
                },
            }
        },
    }
}

/// An improved PB-frame uses no mode that does not go with it.
pub open spec fn improved_pb_supported(o: PlusShimOutcome) -> bool {
    o.improved_pb && o.slice_structured is None && !o.header.advanced_prediction
        && !o.header.umv_mode && !o.options.aic
}

/// What decoding an improved PB-frame gives: the P-picture and the B-picture.
pub open spec fn decoded_improved_pb(
    data: Seq<u8>,
    reference: frame::Planes,
    prev_tr: u8,
    options: DecodeOptions,
) -> Result<(frame::Planes, frame::Planes), Error> {
    let s = bits::bits_of_bytes(data);
    let fresh = InheritedExtendedState::fresh();
    match picture_header::parsed_picture_layer(s, 0, fresh) {
        Err(e) => Err(e),
        Ok(H263PictureLayer::Baseline(_)) => Err(Error::NotImplemented),
        Ok(H263PictureLayer::Extended(x)) => match shim::plus_shim(x, options, fresh) {
            Err(e) => Err(e),
            Ok(o) => if !improved_pb_supported(o) {
                Err(Error::NotImplemented)
            } else {
                match bits::field_at(s, picture_header::picture_layer_end(s, 0, fresh), 5) {
                    Err(e) => Err(e),
                    Ok((pquant, p)) => if pquant == 0 {
                        Err(Error::InvalidQuantiser)
                    } else {
                        match times_at(s, p, o.header.temporal_reference, prev_tr, true) {
                            Err(e) => Err(e),
                            Ok((times, at)) => gobs::gob_picture(
                                s,
                                at,
                                o.header,
                                o.layout,
                                Some(reference),
                                o.options,
                                Some(times),
                            ),
                        }
                    },
                }
            },
        },
    }
}

/// The reference of a picture with a plain header is stored without gaps, if the
/// picture looks at it.
pub open spec fn plain_reference_sound(
    header: H263PictureHeader,
    reference: Option<frame::Planes>,
) -> bool {
    layout::standard_layout(header.source_format) matches Some(l) ==> gobs::reference_sound(
        header,
        l,
        reference,
        None,
    )
}

/// The reference of a picture with an extended header is stored without gaps,
/// if the picture looks at it.
pub open spec fn extended_reference_sound(
    e: H263ExtendedPicture,
    reference: Option<frame::Planes>,
    options: DecodeOptions,
    inherited: InheritedExtendedState,
) -> bool {
    shim::plus_shim(e, options, inherited) matches Ok(o) ==> o.improved_pb || match (
        o.slice_structured) {
        Some(sss) => slices::reference_sound(o.header, o.layout, sss, reference),
        None => gobs::reference_sound(o.header, o.layout, reference, None),
    }
}

/// The reference of a picture with a header of either kind is stored without
/// gaps, if the picture looks at it.
pub open spec fn layer_reference_sound(
    data: Seq<u8>,
    reference: Option<frame::Planes>,
    options: DecodeOptions,
    inherited: InheritedExtendedState,
) -> bool {
    match picture_header::parsed_picture_layer(bits::bits_of_bytes(data), 0, inherited) {
        Ok(H263PictureLayer::Baseline(h)) => plain_reference_sound(h, reference),
        Ok(H263PictureLayer::Extended(e)) => extended_reference_sound(
            e,
            reference,
            options,
            inherited,
        ),
        Err(_) => true,
    }
}

/// The reference of a PB-frame is stored without gaps, if the picture looks at
/// it.
pub open spec fn pb_reference_sound(
    data: Seq<u8>,
    reference: frame::Planes,
    prev_tr: u8,
    options: DecodeOptions,
) -> bool {
    let s = bits::bits_of_bytes(data);
    picture_header::parsed_picture_header(s, 0) matches Ok(h) ==> pb_refused(h, options) || (
    times_at(s, 43, h.temporal_reference, prev_tr, false) matches Ok((times, at)) ==> (
    layout::standard_layout(h.source_format) matches Some(l) ==> gobs::reference_sound(
        h,
        l,
        Some(reference),
        Some(times),
    )))
}

/// The reference of an improved PB-frame is stored without gaps, if the picture
/// looks at it.
pub open spec fn improved_pb_reference_sound(
    data: Seq<u8>,
    reference: frame::Planes,
    prev_tr: u8,
    options: DecodeOptions,
) -> bool {
    let s = bits::bits_of_bytes(data);
    let fresh = InheritedExtendedState::fresh();
    picture_header::parsed_picture_layer(s, 0, fresh) matches Ok(H263PictureLayer::Extended(x))
        ==> (shim::plus_shim(x, options, fresh) matches Ok(o) ==> !improved_pb_supported(o) || (
    times_at(
        s,
        picture_header::picture_layer_end(s, 0, fresh) + 5,
        o.header.temporal_reference,
        prev_tr,
        true,
    ) matches Ok((times, at)) ==> gobs::reference_sound(
        o.header,
        o.layout,
        Some(reference),
        Some(times),
    )))
}

/// `res` is what `outcome` tells of; a frame can serve as a reference.
pub open spec fn frame_read(
    outcome: Result<frame::Planes, Error>,
    res: Result<YuvFrame, Error>,
) -> bool {
    match outcome {
        Ok(p) => res matches Ok(f) && f@ == p && f@.stored(),
        Err(e) => res == Err::<YuvFrame, Error>(e),
    }
}

/// `res` is what `outcome` tells of; both frames can serve as a reference.
pub open spec fn pair_read(
    outcome: Result<(frame::Planes, frame::Planes), Error>,
    res: Result<PbFramePair, Error>,
) -> bool {
    match outcome {
        Ok((p, b)) => {
            &&& res matches Ok(pair) && pair.p_frame@ == p && pair.b_frame@ == b
                && pair.p_frame@.stored() && pair.b_frame@.stored()
        },
        Err(e) => res == Err::<PbFramePair, Error>(e),
    }
}

/// Decode the groups of blocks behind a plain header.
fn decode_plain(
    r: &mut BitReader<'_>,
    header: &H263PictureHeader,
    reference: Option<&YuvFrame>,
    options: DecodeOptions,
) -> (res: Result<YuvFrame, Error>)
    requires
        plain_reference_sound(*header, macroblocks::planes_of(reference)),
    ensures
        frame_read(
            plain_picture(
                bits::stream(*old(r)),
                bits::bits_read(*old(r)) as int,
                *header,
                macroblocks::planes_of(reference),
                options,
            ),
            res,
        ),
{
    match PictureLayout::for_source_format(header.source_format) {
        None => Err(Error::NotImplemented),
        Some(l) => {
            let (frame, rest): (YuvFrame, YuvFrame) = decode_after_picture_header(
                r,
                header,
                &l,
                reference,
                options,
                None,
            )?;
            Ok(frame)
        },
    }
}

/// Decode a picture with a plain header.
///
/// An INTER picture is predicted from `reference`, which must have its size.
pub fn decode_picture(
    data: &[u8],
    reference: Option<&YuvFrame>,
    options: DecodeOptions,
) -> (res: Result<YuvFrame, Error>)
    requires
        picture_header::parsed_picture_header(bits::bits_of_bytes(data@), 0) matches Ok(h)
            ==> plain_reference_sound(h, macroblocks::planes_of(reference)),
    ensures
        frame_read(
            decoded_picture(data@, macroblocks::planes_of(reference), options),
            res,
        ),
{
    let mut r: BitReader<'_> = BitReader::new(data);
    let header: H263PictureHeader = parse_picture_header(&mut r)?;
    decode_plain(&mut r, &header, reference, options)
}

/// Decode what is behind an extended header.
fn decode_extended(
    r: &mut BitReader<'_>,
    e: &H263ExtendedPicture,
    reference: Option<&YuvFrame>,
    options: DecodeOptions,
    inherited: InheritedExtendedState,
) -> (res: Result<YuvFrame, Error>)
    requires
        extended_reference_sound(*e, macroblocks::planes_of(reference), options, inherited),
    ensures
        frame_read(
            extended_picture(
                bits::stream(*old(r)),
                bits::bits_read(*old(r)) as int,
                *e,
                macroblocks::planes_of(reference),
                options,
                inherited,
            ),
            res,
        ),
{
    let o: PlusShimOutcome = plus_ptype_to_baseline_shim(e, options, inherited)?;
    if o.improved_pb {
        return Err(Error::NotImplemented);
    }
    match o.slice_structured {
        Some(sss) => decode_slice_structured_after_header(
            r,
            &o.header,
            &o.layout,
            sss,
            reference,
            o.options,
        ),
        None => {
            let (frame, rest): (YuvFrame, YuvFrame) = decode_after_picture_header(
                r,
                &o.header,
                &o.layout,
                reference,
                o.options,
                None,
            )?;
            Ok(frame)
        },
    }
}

/// Decode a picture with a header of either kind, and give what the next
/// picture carries over.
pub fn decode_picture_layer_with_inherited(
    data: &[u8],
    reference: Option<&YuvFrame>,
    options: DecodeOptions,
    inherited: InheritedExtendedState,
) -> (res: Result<DecodePictureOutcome, Error>)
    requires
        layer_reference_sound(data@, macroblocks::planes_of(reference), options, inherited),
    ensures
        match decoded_layer(data@, macroblocks::planes_of(reference), options, inherited) {
            Ok((p, i)) => res matches Ok(o) && o.frame@ == p && o.inherited == i
                && o.frame@.stored(),
            Err(e) => res == Err::<DecodePictureOutcome, Error>(e),
        },
{
    let mut r: BitReader<'_> = BitReader::new(data);
    let layer: H263PictureLayer = parse_picture_layer(&mut r, inherited)?;
    match layer {
        H263PictureLayer::Baseline(header) => {
            let frame: YuvFrame = decode_plain(&mut r, &header, reference, options)?;
            Ok(DecodePictureOutcome { frame, inherited: InheritedExtendedState::default() })
        },
        H263PictureLayer::Extended(e) => {
            let next: InheritedExtendedState = match e.plus.opptype {
                Some(o) => InheritedExtendedState::from_opptype_with_cpfmt(o, e.plus.cpfmt),
                None => inherited,
            };
            let frame: YuvFrame = decode_extended(&mut r, &e, reference, options, inherited)?;
            Ok(DecodePictureOutcome { frame, inherited: next })
        },
    }
}

/// Decode a picture with a header of either kind, with nothing carried over.
pub fn decode_picture_layer(
    data: &[u8],
    reference: Option<&YuvFrame>,
    options: DecodeOptions,
) -> (res: Result<YuvFrame, Error>)
    requires
        layer_reference_sound(
            data@,
            macroblocks::planes_of(reference),
            options,
            InheritedExtendedState::fresh(),
        ),
    ensures
        match decoded_layer(
            data@,
            macroblocks::planes_of(reference),
            options,
            InheritedExtendedState::fresh(),
        ) {
            Ok((p, _)) => res matches Ok(f) && f@ == p && f@.stored(),
            Err(e) => res == Err::<YuvFrame, Error>(e),
        },
{
    let o: DecodePictureOutcome = decode_picture_layer_with_inherited(
        data,
        reference,
        options,
        InheritedExtendedState::default(),
    )?;
    Ok(o.frame)
}

/// Read what a PB-frame's header says of its B-picture.
fn parse_times(r: &mut BitReader<'_>, tr: u8, prev_tr: u8, annex_m: bool) -> (res: Result<
    PbTimes,
    Error,
>)
    ensures
        bits::read_as(
            times_at(
                bits::stream(*old(r)),
                bits::bits_read(*old(r)) as int,
                tr,
                prev_tr,
                annex_m,
            ),
            res,
            *old(r),
            *final(r),
        ),
        res matches Ok(t) ==> t.wf(),
{
    proof {
        vstd::arithmetic::power2::lemma2_to64();
    }
    let trb: u32 = read_field(r, 3)?;
    if trb == 0 {
        return Err(Error::BadPbTemporalReference);
    }
    let dbquant: u32 = read_field(r, 2)?;
    let trd: i32 = if tr >= prev_tr {
        tr as i32 - prev_tr as i32
    } else {
        tr as i32 - prev_tr as i32 + 256
    };
    if trd == 0 {
        return Err(Error::BadPbTemporalReference);
    }
    Ok(PbTimes { trb: trb as i32, trd, dbquant: dbquant as u8, annex_m })
}

/// Decode a PB-frame. `prev_tr` is the temporal reference of the previous
/// picture, `reference`.
pub fn decode_pb_picture(
    data: &[u8],
    reference: &YuvFrame,
    prev_tr: u8,
    options: DecodeOptions,
) -> (res: Result<PbFramePair, Error>)
    requires
        pb_reference_sound(data@, reference@, prev_tr, options),
    ensures
        pair_read(decoded_pb(data@, reference@, prev_tr, options), res),
{
    let mut r: BitReader<'_> = BitReader::new(data);
    let header: H263PictureHeader = parse_picture_header(&mut r)?;
    if !header.pb_frames {
        return Err(Error::NotImplemented);
    }
    if !matches!(header.coding_type, H263PictureCodingType::Inter) {
        return Err(Error::NotImplemented);
    }
    if header.advanced_prediction || header.sac_mode || options.aic {
        return Err(Error::NotImplemented);
    }
    let times: PbTimes = parse_times(&mut r, header.temporal_reference, prev_tr, false)?;
    match PictureLayout::for_source_format(header.source_format) {
        None => Err(Error::NotImplemented),
        Some(l) => {
            let (p_frame, b_frame): (YuvFrame, YuvFrame) = decode_after_picture_header(
                &mut r,
                &header,
                &l,
                Some(reference),
                options,
                Some(times),
            )?;
            Ok(PbFramePair { p_frame, b_frame })
        },
    }
}

/// Decode an improved PB-frame. `prev_tr` is the temporal reference of the
/// previous picture, `reference`.
pub fn decode_improved_pb_picture(
    data: &[u8],
    reference: &YuvFrame,
    prev_tr: u8,
    options: DecodeOptions,
) -> (res: Result<PbFramePair, Error>)
    requires
        improved_pb_reference_sound(data@, reference@, prev_tr, options),
    ensures
        pair_read(decoded_improved_pb(data@, reference@, prev_tr, options), res),
{
    proof {
        vstd::arithmetic::power2::lemma2_to64();
    }
    let fresh: InheritedExtendedState = InheritedExtendedState::default();
    let mut r: BitReader<'_> = BitReader::new(data);
    let layer: H263PictureLayer = parse_picture_layer(&mut r, fresh)?;
    let e: H263ExtendedPicture = match layer {
        H263PictureLayer::Extended(e) => e,
        H263PictureLayer::Baseline(_) => {
            return Err(Error::NotImplemented);
        },
    };
    let o: PlusShimOutcome = plus_ptype_to_baseline_shim(&e, options, fresh)?;
    if !o.improved_pb {
        return Err(Error::NotImplemented);
    }
    if o.slice_structured.is_some() || o.header.advanced_prediction || o.header.umv_mode
        || o.options.aic {
        return Err(Error::NotImplemented);
    }
    let pquant: u32 = read_field(&mut r, 5)?;
    if pquant == 0 {
        return Err(Error::InvalidQuantiser);
    }
    let times: PbTimes = parse_times(&mut r, o.header.temporal_reference, prev_tr, true)?;
    let (p_frame, b_frame): (YuvFrame, YuvFrame) = decode_after_picture_header(
        &mut r,
        &o.header,
        &o.layout,
        Some(reference),
        o.options,
        Some(times),
    )?;
    Ok(PbFramePair { p_frame, b_frame })
}

/// Behind a picture with a plain header nothing is carried over; behind one
/// that sends its modes those are; and behind one that does not, what was
/// carried over before still is.
pub proof fn modes_are_carried_over(
    data: Seq<u8>,
    reference: Option<frame::Planes>,
    options: DecodeOptions,
    inherited: InheritedExtendedState,
)
    ensures
        ({
            let s = bits::bits_of_bytes(data);
            decoded_layer(data, reference, options, inherited) matches Ok((p, next)) ==> match (
                picture_header::parsed_picture_layer(s, 0, inherited)) {
                Ok(H263PictureLayer::Baseline(_)) => next == InheritedExtendedState::fresh(),
                Ok(H263PictureLayer::Extended(e)) => match e.plus.opptype {
                    Some(o) => next == InheritedExtendedState::captured(o, e.plus.cpfmt),
                    None => next == inherited,
                },
                Err(_) => false,
            }
        }),
{
}

/// A picture with a plain header decodes alike by either way in, whatever was
/// carried over.
pub proof fn plain_headers_decode_alike(
    data: Seq<u8>,
    reference: Option<frame::Planes>,
    options: DecodeOptions,
    inherited: InheritedExtendedState,
)
    requires
        !picture_header::is_extended(bits::bits_of_bytes(data), 0),
    ensures
        match decoded_picture(data, reference, options) {
            Ok(p) => decoded_layer(data, reference, options, inherited) == Ok::<
                (frame::Planes, InheritedExtendedState),
                Error,
            >((p, InheritedExtendedState::fresh())),
            Err(e) => decoded_layer(data, reference, options, inherited) == Err::<
                (frame::Planes, InheritedExtendedState),
                Error,
            >(e),
        },
{
}

/// PB-frames of either kind cannot be decoded to a single picture.
pub proof fn pb_frames_are_refused_as_pictures(
    data: Seq<u8>,
    reference: Option<frame::Planes>,
    options: DecodeOptions,
    inherited: InheritedExtendedState,
)
    ensures
        ({
            let s = bits::bits_of_bytes(data);
            &&& picture_header::parsed_picture_header(s, 0) matches Ok(h) ==> h.pb_frames
                ==> decoded_picture(data, reference, options) == Err::<frame::Planes, Error>(
                Error::NotImplemented,
            )
            &&& picture_header::parsed_picture_layer(s, 0, inherited) matches Ok(
                H263PictureLayer::Baseline(h),
            ) ==> h.pb_frames ==> decoded_layer(data, reference, options, inherited) == Err::<
                (frame::Planes, InheritedExtendedState),
                Error,
            >(Error::NotImplemented)
            &&& picture_header::parsed_picture_layer(s, 0, inherited) matches Ok(
                H263PictureLayer::Extended(e),
            ) ==> e.plus.mpptype.picture_type == PlusPictureType::ImprovedPb ==> decoded_layer(
                data,
                reference,
                options,
                inherited,
            ) == Err::<(frame::Planes, InheritedExtendedState), Error>(Error::NotImplemented)
        }),
{
}

/// A picture that is no PB-frame, or one of the other kind, cannot be decoded
/// as one.
pub proof fn pictures_are_refused_as_pb_frames(
    data: Seq<u8>,
    reference: frame::Planes,
    prev_tr: u8,
    options: DecodeOptions,
)
    ensures
        ({
            let s = bits::bits_of_bytes(data);
            let fresh = InheritedExtendedState::fresh();
            let refused = Err::<(frame::Planes, frame::Planes), Error>(Error::NotImplemented);
            &&& picture_header::parsed_picture_header(s, 0) matches Ok(h) ==> !h.pb_frames
                ==> decoded_pb(data, reference, prev_tr, options) == refused
            &&& picture_header::parsed_picture_layer(s, 0, fresh) matches Ok(
                H263PictureLayer::Baseline(h),
            ) ==> decoded_improved_pb(data, reference, prev_tr, options) == refused
            &&& picture_header::parsed_picture_layer(s, 0, fresh) matches Ok(
                H263PictureLayer::Extended(e),
            ) ==> e.plus.mpptype.picture_type != PlusPictureType::ImprovedPb
                ==> decoded_improved_pb(data, reference, prev_tr, options) == refused
        }),
{
}

} // verus!
