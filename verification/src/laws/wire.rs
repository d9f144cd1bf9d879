//! Laws of headers on the wire: where each field stands.

use crate::bits;
use crate::picture_header;
use crate::picture_header::H263PictureCodingType;
use crate::plus_ptype;
use crate::plus_ptype::{InheritedExtendedState, PlusPictureType, PlusSourceFormat, Uui};
use crate::rate_control;
use crate::rtp;
use crate::rtp::PayloadHeader;
use crate::sei;
use crate::sei::SeiView;
use crate::slice;
use crate::slice::{SourceFormat, SssMode};
use crate::slice_header;
use vstd::prelude::*;

verus! {

/// The octet of a record's head: the function type in its upper half and the number of
/// parameter octets in its lower half.
pub proof fn records_begin_with_type_and_size(s: Seq<u8>)
    requires
        s.len() > 0,
    ensures
        16 * sei::ftype_of(s) + sei::dsize_of(s) == s[0],
        0 <= sei::dsize_of(s) < 16,
        sei::ftype_of(s) != 15 ==> sei::record_len(s) == 1 + sei::dsize_of(s),
        sei::ftype_of(s) == 15 && s.len() > 1 ==> sei::record_len(s) == 2 + s[1] % 16,
{
}

/// Function types 1 to 5: nothing, a freeze, a freeze of a part, a freeze of a resized
/// part, and its release. Parts are a column, a row, a width and a height, in this
/// order; of a resized part the displayed one comes first.
pub proof fn freeze_requests_spell_out_their_parts(s: Seq<u8>)
    requires
        s.len() > 8,
    ensures
        s[0] == 0x10 ==> sei::record_of(s) == SeiView::DoNothing,
        s[0] == 0x20 ==> sei::record_of(s) == SeiView::FullPictureFreezeRequest,
        s[0] == 0x34 ==> sei::record_of(s) == (SeiView::PartialPictureFreezeRequest {
            x: s[1],
            y: s[2],
            width: s[3],
            height: s[4],
        }),
        s[0] == 0x48 ==> sei::record_of(s) == (SeiView::ResizingPartialPictureFreezeRequest {
            displayed: (s[1], s[2], s[3], s[4]),
            decoded: (s[5], s[6], s[7], s[8]),
        }),
        s[0] == 0x54 ==> sei::record_of(s) == (SeiView::PartialPictureFreezeReleaseRequest {
            x: s[1],
            y: s[2],
            width: s[3],
            height: s[4],
        }),
{
}

/// Function types 6 to 11: tags with a number of four octets, the most significant
/// first; a snapshot of a part goes on with the part.
pub proof fn tags_count_in_four_octets(s: Seq<u8>)
    requires
        s.len() > 8,
    ensures
        ({
            let id = (256 * (256 * (256 * s[1] + s[2]) + s[3]) + s[4]) as u32;
            &&& id == 0x100_0000 * s[1] + 0x1_0000 * s[2] + 0x100 * s[3] + s[4]
            &&& s[0] == 0x64 ==> sei::record_of(s) == (SeiView::FullPictureSnapshotTag { id })
            &&& s[0] == 0x78 ==> sei::record_of(s) == (SeiView::PartialPictureSnapshotTag {
                id,
                x: s[5],
                y: s[6],
                width: s[7],
                height: s[8],
            })
            &&& s[0] == 0x84 ==> sei::record_of(s) == (SeiView::VideoTimeSegmentStartTag { id })
            &&& s[0] == 0x94 ==> sei::record_of(s) == (SeiView::VideoTimeSegmentEndTag { id })
            &&& s[0] == 0xa4 ==> sei::record_of(s) == (
            SeiView::ProgressiveRefinementSegmentStartTag { id })
            &&& s[0] == 0xb4 ==> sei::record_of(s) == (SeiView::ProgressiveRefinementSegmentEndTag {
                id,
            })
        }),
{
}

/// A payload header says in its first octet whether start code zeros were left out and
/// whether an extension follows; ten bits tell the length of the picture header in
/// octets and the bits to ignore at its end. The extension has three bits of thread,
/// four of number and one of flag.
pub proof fn payload_headers_keep_their_bits(b: Seq<u8>)
    requires
        b.len() >= 3,
        rtp::parsed_payload_header(b) is Ok,
    ensures
        ({
            let (h, at) = rtp::parsed_payload_header(b)->Ok_0;
            let start = if b[0] % 4 >= 2 {
                3int
            } else {
                2
            };
            let len = 32 * (b[0] % 2) + b[1] as int / 8;
            &&& h.p <==> b[0] % 8 >= 4
            &&& h.vrc is Some <==> b[0] % 4 >= 2
            &&& h.pebit == b[1] % 8
            &&& h.vrc matches Some(v) ==> 32 * v.tid + 2 * v.trun + bits::bit_value(v.sync) == b[2]
                && v.tid < 8 && v.trun < 16
            &&& h.extra == b.subrange(start, start + len)
            &&& at == start + len
        }),
{
    reveal(rtp::parsed_payload_header);
}

/// A written payload header begins with five zero bits and has the same bits.
pub proof fn written_payload_headers_keep_their_bits(h: PayloadHeader)
    requires
        rtp::is_extra(h),
        rtp::is_vrc(h.vrc),
    ensures
        ({
            let b = rtp::header_bytes(h);
            let v = if h.vrc is Some {
                1int
            } else {
                0
            };
            &&& b.len() == 2 + v + h.extra.len()
            &&& b[0] < 8
            &&& b[0] % 8 >= 4 <==> h.p
            &&& b[0] % 4 >= 2 <==> h.vrc is Some
            &&& 256 * (b[0] % 2) + b[1] == 8 * h.extra.len() + h.pebit
            &&& h.vrc matches Some(x) ==> b[2] == 32 * x.tid + 2 * x.trun + bits::bit_value(x.sync)
        }),
{
    reveal(rtp::header_bytes);
}

/// The four octets of the older format's header: the flag of PB-frames and the bits to
/// ignore in front and behind; the picture's format and modes; the B-picture's
/// quantiser and time; the P-picture's time.
pub proof fn older_headers_keep_their_bits(b: Seq<u8>)
    requires
        b.len() >= 4,
        b[0] < 128,
    ensures
        rtp::parsed_mode_a(b) is Ok,
        ({
            let h = rtp::parsed_mode_a(b)->Ok_0;
            &&& h.pb_frames <==> b[0] >= 64
            &&& 8 * h.sbit + h.ebit == b[0] % 64
            &&& h.sbit < 8 && h.ebit < 8
            &&& h.src == b[1] / 32
            &&& h.inter <==> b[1] % 32 >= 16
            &&& h.umv <==> b[1] % 16 >= 8
            &&& h.sac <==> b[1] % 8 >= 4
            &&& h.advanced_prediction <==> b[1] % 4 >= 2
            &&& 8 * h.dbq + h.trb == b[2] % 32
            &&& h.dbq < 4 && h.trb < 8
            &&& h.tr == b[3]
        }),
{
}

/// The five bits behind a start code tell what it begins: 0 a picture, 30 and 31 the
/// end, and every other number a group of blocks or a slice.
pub proof fn start_codes_tell_what_they_begin(s: Seq<u8>, at: int)
    requires
        0 <= at,
        at + 3 <= s.len(),
    ensures
        rtp::is_start_code(s, at) <==> s[at] == 0 && s[at + 1] == 0 && s[at + 2] >= 128,
        rtp::begins_picture(s, at) <==> s[at + 2] % 128 < 4,
        rtp::ends_sequence(s, at) <==> s[at + 2] % 128 >= 120,
{
}

/// Behind the start code a plain picture header has the time in eight bits, a 1, a 0,
/// three flags for the display, three bits of format, and a bit each for INTER,
/// unrestricted vectors, arithmetic coding, advanced prediction and PB-frames.
pub proof fn picture_headers_keep_their_bits(s: Seq<bool>, at: int)
    requires
        picture_header::parsed_picture_header(s, at) is Ok,
        0 <= at,
    ensures
        ({
            let h = picture_header::parsed_picture_header(s, at)->Ok_0;
            let f = bits::field(s, at + 35, 3);
            &&& bits::field(s, at, 22) == 32
            &&& s[at + 30]
            &&& !s[at + 31]
            &&& f != 0 && f != 7
            &&& h.temporal_reference == bits::field(s, at + 22, 8) as u8
            &&& h.split_screen == s[at + 32]
            &&& h.document_camera == s[at + 33]
            &&& h.freeze_release == s[at + 34]
            &&& h.coding_type == H263PictureCodingType::Inter <==> s[at + 38]
            &&& h.umv_mode == s[at + 39]
            &&& h.sac_mode == s[at + 40]
            &&& h.advanced_prediction == s[at + 41]
            &&& h.pb_frames == s[at + 42]
            &&& f == 1 ==> h.source_format.dimensions() == Some((128u32, 96u32))
            &&& f == 2 ==> h.source_format.dimensions() == Some((176u32, 144u32))
            &&& f == 3 ==> h.source_format.dimensions() == Some((352u32, 288u32))
            &&& f == 4 ==> h.source_format.dimensions() == Some((704u32, 576u32))
            &&& f == 5 ==> h.source_format.dimensions() == Some((1408u32, 1152u32))
        }),
{
}

/// The eighteen bits that an extended header can bring along: the format, a bit for each
/// mode in order, and a 1 with three zeros.
pub proof fn optional_modes_keep_their_bits(s: Seq<bool>, at: int)
    requires
        0 <= at,
        plus_ptype::opptype_error(s, at) is None,
    ensures
        ({
            let o = plus_ptype::opptype_at(s, at);
            let f = bits::field(s, at, 3);
            &&& f != 0 && f != 7
            &&& f == 6 ==> o.source_format == PlusSourceFormat::Custom
            &&& f < 6 ==> o.source_format.dimensions() == picture_header::source_format(
                f,
            ).dimensions()
            &&& o.custom_pcf == s[at + 3]
            &&& o.umv == s[at + 4]
            &&& o.sac == s[at + 5]
            &&& o.advanced_prediction == s[at + 6]
            &&& o.advanced_intra == s[at + 7]
            &&& o.deblocking == s[at + 8]
            &&& o.slice_structured == s[at + 9]
            &&& o.reference_picture_selection == s[at + 10]
            &&& o.independent_segment_decoding == s[at + 11]
            &&& o.alternative_inter_vlc == s[at + 12]
            &&& o.modified_quantization == s[at + 13]
            &&& s[at + 14] && !s[at + 15] && !s[at + 16] && !s[at + 17]
        }),
{
    reveal(plus_ptype::opptype_error);
    reveal(plus_ptype::opptype_at);
    bits::lemma_value_bound(s.subrange(at, at + 3));
    vstd::arithmetic::power2::lemma2_to64();
}

/// The nine bits that every extended header has: the picture's type, three flags, and
/// two zeros with a 1.
pub proof fn mandatory_fields_keep_their_bits(s: Seq<bool>, at: int)
    requires
        0 <= at,
        plus_ptype::mpptype_error(s, at) is None,
    ensures
        ({
            let m = plus_ptype::mpptype_at(s, at);
            let t = bits::field(s, at, 3);
            &&& t < 6
            &&& t == 0 <==> m.picture_type == PlusPictureType::Intra
            &&& t == 1 <==> m.picture_type == PlusPictureType::Inter
            &&& t == 2 <==> m.picture_type == PlusPictureType::ImprovedPb
            &&& t == 3 <==> m.picture_type == PlusPictureType::BPicture
            &&& t == 4 <==> m.picture_type == PlusPictureType::EiPicture
            &&& t == 5 <==> m.picture_type == PlusPictureType::EpPicture
            &&& m.reference_picture_resampling == s[at + 3]
            &&& m.reduced_resolution_update == s[at + 4]
            &&& m.rounding_type == s[at + 5]
        }),
{
    reveal(plus_ptype::mpptype_error);
    reveal(plus_ptype::mpptype_at);
}

/// An extended header has its fields in a fixed order, each right behind the one before
/// and only where its mode is on: the modes, the type, the sub-bitstream, the custom
/// format with its pixel shape, the custom clock with its longer time, the range of
/// vectors and the submodes of slices.
pub proof fn extended_headers_come_in_order(
    s: Seq<bool>,
    at: int,
    inherited: InheritedExtendedState,
)
    ensures
        ({
            let l = plus_ptype::layout(s, at, inherited);
            let width = |present: bool, n: int|
                if present {
                    n
                } else {
                    0
                };
            let full = bits::field(s, at, 3) == 1;
            &&& l.opptype is Some <==> full
            &&& full ==> l.opptype == Some(plus_ptype::opptype_at(s, at + 3))
            &&& l.mpptype == at + 3 + width(full, 18)
            &&& l.has_psbi == s[l.mpptype + 9]
            &&& l.psbi == l.mpptype + 10
            &&& l.cpfmt == l.psbi + width(l.has_psbi, 2)
            &&& l.epar == l.cpfmt + width(l.has_cpfmt, 23)
            &&& l.cpcfc == l.epar + width(l.has_epar, 16)
            &&& l.etr == l.cpcfc + width(l.has_cpcfc, 8)
            &&& l.uui == l.etr + width(l.has_etr, 2)
            &&& l.sss == l.uui + width(
                l.has_uui,
                if s[l.uui] {
                    1
                } else {
                    2
                },
            )
            &&& l.end == l.sss + width(l.has_sss, 2)
            &&& l.has_epar <==> l.has_cpfmt && bits::field(s, l.cpfmt, 4) == 15
        }),
{
}

/// A custom format is a pixel shape in four bits, a width in nine, a 1 and a height in
/// nine; the picture is four samples wider than four times the one, and four times the
/// other high. Vectors are limited where their field is a 1.
pub proof fn custom_formats_count_in_fours(s: Seq<bool>, at: int, o: plus_ptype::Opptype)
    requires
        0 <= at,
        plus_ptype::cpfmt_error(s, at) is None,
    ensures
        ({
            let c = plus_ptype::cpfmt_at(s, at);
            let d = InheritedExtendedState::captured(o, Some(c)).custom_dimensions;
            &&& s[at + 13]
            &&& c.par_code == bits::field(s, at, 4)
            &&& d == Some(
                (
                    (4 * bits::field(s, at + 4, 9) + 4) as u32,
                    (4 * bits::field(s, at + 14, 9)) as u32,
                ),
            )
        }),
        plus_ptype::uui_at(s, at) == Uui::Limited <==> s[at],
        plus_ptype::sss_at(s, at).rectangular == s[at],
        plus_ptype::sss_at(s, at).arbitrary_order == s[at + 1],
{
    reveal(plus_ptype::cpfmt_error);
    bits::lemma_value_bound(s.subrange(at, at + 4));
    bits::lemma_value_bound(s.subrange(at + 4, at + 13));
    bits::lemma_value_bound(s.subrange(at + 14, at + 23));
    vstd::arithmetic::power2::lemma2_to64();
}

/// Macroblock addresses are as wide as the smallest standard picture needs that is no
/// smaller: every address of the picture fits.
pub proof fn addresses_fit_their_width(macroblocks: int)
    requires
        0 < macroblocks <= 16384,
    ensures
        ({
            let n = slice_header::address_bits(macroblocks);
            &&& macroblocks <= 48 ==> n == 6
            &&& 48 < macroblocks <= 99 ==> n == 7
            &&& 99 < macroblocks <= 396 ==> n == 9
            &&& 396 < macroblocks <= 1584 ==> n == 11
            &&& 1584 < macroblocks <= 6336 ==> n == 13
            &&& 6336 < macroblocks ==> n == 14
            &&& macroblocks <= vstd::arithmetic::power2::pow2(n as nat)
        }),
{
    vstd::arithmetic::power2::lemma2_to64();
}

/// A later slice of a small picture begins with a start code, a 1, the address, the
/// quantiser in five bits, a 1 and the frame identifier in two bits.
pub proof fn later_slices_keep_their_bits(s: Seq<bool>, at: int, macroblocks: int)
    requires
        0 <= at,
        0 < macroblocks <= 1584,
        slice_header::slice_at(s, at, macroblocks) is Ok,
    ensures
        ({
            let (h, end) = slice_header::slice_at(s, at, macroblocks)->Ok_0;
            let n = slice_header::address_bits(macroblocks);
            &&& bits::field(s, at, 17) == 1
            &&& s[at + 17]
            &&& h.mba == bits::field(s, at + 18, n) as u32
            &&& h.squant == bits::field(s, at + 18 + n, 5) as u8
            &&& bits::field(s, at + 18 + n, 5) != 0
            &&& s[at + 23 + n]
            &&& end == at + 26 + n
        }),
{
}

/// The first slice of a picture has its address between two ones and nothing else.
pub proof fn first_slices_keep_their_bits(s: Seq<bool>, at: int, macroblocks: int)
    requires
        0 <= at,
        0 < macroblocks,
        slice_header::first_slice_at(s, at, macroblocks) is Ok,
    ensures
        ({
            let (mba, end) = slice_header::first_slice_at(s, at, macroblocks)->Ok_0;
            let n = slice_header::address_bits(macroblocks);
            &&& s[at]
            &&& mba == bits::field(s, at + 1, n) as u32
            &&& s[at + 1 + n]
            &&& end == at + 2 + n
        }),
{
}

/// The submodes of slices are two bits: rectangles, then free order.
pub proof fn submodes_are_two_bits(m: SssMode)
    ensures
        m.code() >= 2 <==> m.rectangular_slice,
        m.code() % 2 == 1 <==> m.arbitrary_order,
{
}

/// Behind its start code a slice header of one stream has a 1, the address, a 1 where the
/// address is long, the quantiser, the width of a rectangle, a 1 and the frame
/// identifier.
pub proof fn slice_headers_keep_their_bits(
    s: Seq<bool>,
    at: int,
    format: SourceFormat,
    sss: SssMode,
)
    requires
        slice::mba_width(format, false) is Some,
        slice::swi_width(format, false) is Some,
    ensures
        ({
            let h = slice::parsed_body(s, at, format, sss, false, false);
            let n = slice::mba_width(format, false)->Some_0;
            let w = if sss.rectangular_slice {
                slice::swi_width(format, false)->Some_0
            } else {
                0
            };
            let two = if n > 11 {
                1int
            } else {
                0
            };
            let q = at + 1 + n + two;
            let l = slice::layout(format, sss, false, false);
            &&& h.mba == bits::field(s, at + 1, n) as u32
            &&& h.squant == bits::field(s, q, 5) as u8
            &&& h.swi is Some <==> sss.rectangular_slice
            &&& h.swi matches Some(v) ==> v == bits::field(s, q + 5, w) as u32
            &&& h.gfid == bits::field(s, q + 5 + w + 1, 2) as u8
            &&& h.ssbi is None
            &&& at + l.end() == q + 5 + w + 3
        }),
{
}

/// The next quantiser is in proportion to the virtual buffer: at half a target over it is
/// a quarter coarser, rounded down, unless it moves too far or leaves its range.
pub proof fn quantisers_are_in_proportion(target: int, fullness: int, quant: int)
    requires
        1 <= target,
        1 <= quant <= 31,
        -target < fullness < 2 * target,
    ensures
        ({
            let q = rate_control::next_quantiser(target, fullness, quant);
            let exact = quant * (2 * target + fullness);
            quant - 4 < q < quant + 4 && 1 < q < 31 ==> 0 <= exact - 2 * target * q < 2 * target
        }),
{
    let t = 2 * target;
    let n = quant * (t + fullness);
    vstd::arithmetic::div_mod::lemma_fundamental_div_mod(n, t);
}

/// The virtual buffer moves by as much as a picture misses its target, and stops at its
/// ends.
pub proof fn buffers_move_by_what_is_missed(target: int, fullness: int, bits: int)
    requires
        1 <= target,
    ensures
        ({
            let f = rate_control::next_fullness(target, fullness, bits);
            &&& -target <= f <= 2 * target
            &&& -target < f < 2 * target ==> f - fullness == bits - target
            &&& fullness + bits - target >= 2 * target ==> f == 2 * target
            &&& fullness + bits - target <= -target ==> f == -target
        }),
{
}

} // verus!
