//! Laws of what is decoded and what is refused, and of what one picture hands on to the
//! next.

use crate::bits;
use crate::error::Error;
use crate::macroblock::H263Macroblock;
use crate::picture::b_part::PbTimes;
use crate::picture::decode;
use crate::picture::frame;
use crate::picture::frame::DecodeOptions;
use crate::picture::gobs;
use crate::picture::layout::PictureLayout;
use crate::picture::macroblocks;
use crate::picture::macroblocks::{Before, MbModes, MbPlace};
use crate::picture::shim;
use crate::picture::slices;
use crate::picture::walk::{Job, Progress};
use crate::picture_header;
use crate::picture_header::{
    H263ExtendedPicture, H263PictureCodingType, H263PictureHeader,
};
use crate::plus_ptype::{
    InheritedExtendedState, PlusPictureType, PlusSourceFormat, SliceStructuredSubmode, Uui,
};
use crate::scal_upsample;
use crate::slice_header;
use crate::slice_header::SliceStart;
use vstd::prelude::*;

verus! {

/// A picture of groups of blocks is refused where it is arithmetically coded, where its
/// header and its caller disagree on whether it is a PB-frame, and where it is INTER and
/// has no reference of its own size; else what its groups say decides. An INTRA picture
/// looks at no reference.
pub proof fn pictures_without_their_reference_are_refused(
    s: Seq<bool>,
    at: int,
    header: H263PictureHeader,
    layout: PictureLayout,
    reference: Option<frame::Planes>,
    options: DecodeOptions,
    pb: Option<PbTimes>,
)
    ensures
        ({
            let r = gobs::gob_picture(s, at, header, layout, reference, options, pb);
            let refused = r == Err::<(frame::Planes, frame::Planes), Error>(Error::NotImplemented);
            let inter = header.coding_type == H263PictureCodingType::Inter;
            let job = gobs::job_of(header, layout, reference, options, pb);
            &&& header.sac_mode ==> refused
            &&& header.pb_frames && pb is None ==> refused
            &&& !header.pb_frames && pb is Some ==> refused
            &&& inter && reference is None ==> refused
            &&& inter && reference is Some && reference->Some_0.width != layout.luma_width
                ==> refused
            &&& inter && reference is Some && reference->Some_0.height != layout.luma_height
                ==> refused
            &&& !header.sac_mode && (header.pb_frames <==> pb is Some) && (!inter || reference is Some
                && reference->Some_0.width == layout.luma_width && reference->Some_0.height
                == layout.luma_height) ==> (r is Ok <==> gobs::all_gobs(
                s,
                at,
                job,
                layout,
            ) is Ok)
            &&& !inter ==> r == gobs::gob_picture(s, at, header, layout, None, options, pb)
        }),
{
}

/// A picture of slices is refused where it is arithmetically coded, a PB-frame, uses
/// advanced prediction, has rectangular slices, or is INTER and has no reference of its own
/// size; else what its slices say decides, and they have to cover it.
pub proof fn sliced_pictures_use_few_modes(
    s: Seq<bool>,
    at: int,
    header: H263PictureHeader,
    layout: PictureLayout,
    sss: SliceStructuredSubmode,
    reference: Option<frame::Planes>,
    options: DecodeOptions,
)
    ensures
        ({
            let r = slices::sliced_picture(s, at, header, layout, sss, reference, options);
            let refused = r == Err::<frame::Planes, Error>(Error::NotImplemented);
            let inter = header.coding_type == H263PictureCodingType::Inter;
            let fits = !inter || reference is Some && reference->Some_0.width == layout.luma_width
                && reference->Some_0.height == layout.luma_height;
            let all = slices::all_slices(
                s,
                at,
                gobs::job_of(header, layout, reference, options, None),
            );
            &&& header.sac_mode ==> refused
            &&& header.pb_frames ==> refused
            &&& header.advanced_prediction ==> refused
            &&& sss.rectangular ==> refused
            &&& !fits ==> refused
            &&& !header.sac_mode && !header.pb_frames && !header.advanced_prediction
                && !sss.rectangular && fits ==> (r is Ok <==> all is Ok && forall|i: int|
                0 <= i < all->Ok_0.0.done.len() ==> #[trigger] all->Ok_0.0.done[i])
            &&& !inter ==> r == slices::sliced_picture(s, at, header, layout, sss, None, options)
        }),
{
}

/// A PB-frame is INTER and uses neither advanced prediction nor arithmetic nor Advanced
/// INTRA coding.
pub proof fn pb_frames_use_few_modes(
    data: Seq<u8>,
    reference: frame::Planes,
    prev_tr: u8,
    options: DecodeOptions,
)
    requires
        picture_header::parsed_picture_header(bits::bits_of_bytes(data), 0) is Ok,
    ensures
        ({
            let h = picture_header::parsed_picture_header(bits::bits_of_bytes(data), 0)->Ok_0;
            let r = decode::decoded_pb(data, reference, prev_tr, options);
            let refused = r == Err::<(frame::Planes, frame::Planes), Error>(Error::NotImplemented);
            &&& !h.pb_frames ==> refused
            &&& h.coding_type == H263PictureCodingType::Intra ==> refused
            &&& h.advanced_prediction ==> refused
            &&& h.sac_mode ==> refused
            &&& options.aic ==> refused
            &&& h.pb_frames && h.coding_type == H263PictureCodingType::Inter
                && !h.advanced_prediction && !h.sac_mode && !options.aic ==> (decode::times_at(
                bits::bits_of_bytes(data),
                43,
                h.temporal_reference,
                prev_tr,
                false,
            ) matches Err(e) ==> r == Err::<(frame::Planes, frame::Planes), Error>(e))
        }),
{
}

/// An improved PB-frame uses neither slices nor advanced prediction nor unrestricted
/// vectors nor Advanced INTRA coding.
pub proof fn improved_pb_frames_use_few_modes(
    data: Seq<u8>,
    reference: frame::Planes,
    prev_tr: u8,
    options: DecodeOptions,
)
    requires
        decode::decoded_improved_pb(data, reference, prev_tr, options) is Ok,
    ensures
        ({
            let fresh = InheritedExtendedState::fresh();
            let l = picture_header::parsed_picture_layer(bits::bits_of_bytes(data), 0, fresh);
            &&& l is Ok
            &&& l->Ok_0 is Extended
            &&& ({
                let e = l->Ok_0->Extended_0;
                &&& e.plus.mpptype.picture_type == PlusPictureType::ImprovedPb
                &&& !options.aic
                &&& e.plus.opptype matches Some(o) ==> !o.slice_structured
                    && !o.advanced_prediction && !o.umv && !o.advanced_intra && !o.sac
            })
        }),
{
}

/// A picture hands on what it sends of its modes; an extended one that sends none hands on
/// what was handed to it, and a plain one nothing.
pub proof fn pictures_hand_on_their_modes(
    data: Seq<u8>,
    reference: Option<frame::Planes>,
    options: DecodeOptions,
    inherited: InheritedExtendedState,
)
    requires
        decode::decoded_layer(data, reference, options, inherited) is Ok,
    ensures
        ({
            let next = decode::decoded_layer(data, reference, options, inherited)->Ok_0.1;
            let l = picture_header::parsed_picture_layer(bits::bits_of_bytes(data), 0, inherited);
            &&& l is Ok
            &&& l->Ok_0 is Baseline ==> next.source_format is None && next.custom_dimensions is None
                && !next.custom_pcf && !next.umv && !next.advanced_prediction
                && !next.advanced_intra && !next.deblocking
            &&& l->Ok_0 is Extended && l->Ok_0->Extended_0.plus.opptype is None ==> next
                == inherited
            &&& l->Ok_0 is Extended && l->Ok_0->Extended_0.plus.opptype is Some ==> ({
                let o = l->Ok_0->Extended_0.plus.opptype->Some_0;
                &&& next.source_format == Some(o.source_format)
                &&& next.custom_pcf == o.custom_pcf
                &&& next.umv == o.umv
                &&& next.advanced_prediction == o.advanced_prediction
                &&& next.advanced_intra == o.advanced_intra
                &&& next.deblocking == o.deblocking
                &&& next.custom_dimensions is Some <==> l->Ok_0->Extended_0.plus.cpfmt is Some
            })
        }),
{
}

/// An extended picture of standard size that sends its modes can be decoded unless it is of
/// an enhancement type, changes its resolution, shares its stream, has a clock of its own or
/// uses arithmetic coding, independent segments, the other INTER table or modified
/// quantisation; unrestricted vectors have to be limited, but for INTRA pictures.
pub proof fn extended_pictures_are_decoded_or_refused(
    e: H263ExtendedPicture,
    options: DecodeOptions,
    inherited: InheritedExtendedState,
)
    requires
        e.plus.opptype is Some,
        e.plus.opptype->Some_0.source_format != PlusSourceFormat::Custom,
    ensures
        ({
            let o = e.plus.opptype->Some_0;
            let t = e.plus.mpptype.picture_type;
            let r = shim::plus_shim(e, options, inherited);
            let known = t == PlusPictureType::Intra || t == PlusPictureType::Inter || t
                == PlusPictureType::ImprovedPb;
            let plain = !o.sac && !o.independent_segment_decoding && !o.alternative_inter_vlc
                && !o.modified_quantization && !o.custom_pcf;
            let alone = !e.plus.cpm && !e.plus.mpptype.reduced_resolution_update;
            let limited = e.plus.uui == Some(Uui::Limited);
            &&& r is Err ==> r->Err_0 == Error::NotImplemented
            &&& r is Ok <==> known && plain && alone && (o.umv && t != PlusPictureType::Intra
                ==> limited)
        }),
{
}

/// An extended picture that sends no modes is decoded by those handed to it: any of them but
/// a clock of its own will do, if there is a size.
pub proof fn inherited_modes_stay_in_force(
    e: H263ExtendedPicture,
    options: DecodeOptions,
    inherited: InheritedExtendedState,
)
    requires
        e.plus.opptype is None,
        !e.plus.cpm,
        !e.plus.mpptype.reduced_resolution_update,
        e.plus.mpptype.picture_type == PlusPictureType::Inter,
        inherited.source_format != Some(PlusSourceFormat::Custom),
    ensures
        ({
            let r = shim::plus_shim(e, options, inherited);
            &&& r is Ok <==> inherited.source_format is Some && !inherited.custom_pcf
            &&& r is Ok ==> r->Ok_0.header.umv_mode == inherited.umv
                && r->Ok_0.header.advanced_prediction == inherited.advanced_prediction
            &&& r is Ok ==> r->Ok_0.options.aic == (inherited.advanced_intra || options.aic)
                && r->Ok_0.options.deblock == (inherited.deblocking || options.deblock)
            &&& r is Ok ==> r->Ok_0.slice_structured is None
        }),
{
}

/// The addresses of slices rise and stay inside the picture; each slice behind the first is
/// a segment of its own.
pub proof fn slices_are_segments_of_their_own(
    s: Seq<bool>,
    at: int,
    job: Job,
    p: Progress,
    done: Seq<bool>,
    start: SliceStart,
    prev: Option<u32>,
    segment: int,
)
    ensures
        ({
            let r = slices::with_slices_from(s, at, job, p, done, start, prev, segment);
            let count = job.cols * job.rows;
            let first = slices::with_slice_from(
                s,
                at,
                job,
                Progress { quant: start.squant, ..p },
                done,
                start.mba as int,
                segment,
            );
            &&& prev is Some && start.mba <= prev->Some_0 ==> r == Err::<
                (slices::Covered, int),
                Error,
            >(Error::BadSliceCoverage)
            &&& (prev is None || prev->Some_0 < start.mba) && count <= start.mba ==> r == Err::<
                (slices::Covered, int),
                Error,
            >(Error::SliceMbaOutOfRange)
            &&& r is Ok && first->Ok_0.0.next < count ==> ({
                let aligned = slice_header::stuffing_at(s, first->Ok_0.1)->Ok_0.1;
                let (next, body) = slice_header::slice_at(s, aligned, count)->Ok_0;
                &&& first is Ok
                &&& start.mba < next.mba
                &&& r == slices::with_slices_from(
                    s,
                    body,
                    job,
                    first->Ok_0.0.progress,
                    first->Ok_0.0.done,
                    next,
                    Some(start.mba),
                    segment + 1,
                )
            })
        }),
{
    reveal_with_fuel(slices::with_slices_from, 2);
}

/// With Advanced INTRA coding, INTRA macroblocks do not look at the other modes, and need a
/// mode of their own.
pub proof fn advanced_coding_is_for_all_intra_macroblocks(
    s: Seq<bool>,
    at: int,
    mb: H263Macroblock,
    reference: Option<frame::Planes>,
    b: Before,
    place: MbPlace,
    modes: MbModes,
    other: MbModes,
)
    requires
        mb.coded,
        mb.mb_type is Some,
        mb.mb_type->Some_0.intra(),
        modes.aic,
        other.aic,
    ensures
        macroblocks::macroblock_step(s, at, mb, reference, b, place, modes)
            == macroblocks::macroblock_step(s, at, mb, reference, b, place, other),
        mb.intra_mode is None ==> macroblocks::macroblock_step(
            s,
            at,
            mb,
            reference,
            b,
            place,
            modes,
        ) is Err,
{
    reveal(macroblocks::macroblock_step);
}

/// Where Advanced INTRA coding is on, nothing is predicted from the blocks of a macroblock
/// that is not INTRA; where it is off, such a macroblock leaves what is remembered alone.
pub proof fn other_macroblocks_are_not_predicted_from(
    s: Seq<bool>,
    at: int,
    mb: H263Macroblock,
    reference: Option<frame::Planes>,
    b: Before,
    place: MbPlace,
    modes: MbModes,
    rows: int,
    segment: u32,
)
    requires
        !mb.coded || mb.mb_type is Some && !mb.mb_type->Some_0.intra(),
        b.known.has_size(b.cols, rows),
        place.col < b.cols,
        place.row < rows,
        macroblocks::macroblock_step(s, at, mb, reference, b, place, modes) is Ok,
    ensures
        ({
            let d = macroblocks::macroblock_step(s, at, mb, reference, b, place, modes)->Ok_0.0;
            let n = 2 * b.cols;
            let (x, y) = (place.col as int, place.row as int);
            &&& !modes.aic ==> d.known == b.known
            &&& modes.aic ==> d.known.cb.available(y * b.cols + x, segment) is None
                && d.known.cr.available(y * b.cols + x, segment) is None
            &&& modes.aic ==> d.known.luma.available(2 * y * n + 2 * x, segment) is None
                && d.known.luma.available(2 * y * n + (2 * x + 1), segment) is None
                && d.known.luma.available((2 * y + 1) * n + 2 * x, segment) is None
                && d.known.luma.available((2 * y + 1) * n + (2 * x + 1), segment) is None
        }),
{
    reveal(macroblocks::macroblock_step);
    let (x, y) = (place.col as int, place.row as int);
    let n = 2 * b.cols;
    scal_upsample::lemma_position(y, x, b.cols, rows);
    scal_upsample::lemma_position(2 * y, 2 * x, n, 2 * rows);
    scal_upsample::lemma_position(2 * y, 2 * x + 1, n, 2 * rows);
    scal_upsample::lemma_position(2 * y + 1, 2 * x, n, 2 * rows);
    scal_upsample::lemma_position(2 * y + 1, 2 * x + 1, n, 2 * rows);
    assert(n * (2 * rows) == b.known.luma.cols * (2 * rows));
    assert(b.cols * rows == b.known.cb.cols * rows);
}

} // verus!
