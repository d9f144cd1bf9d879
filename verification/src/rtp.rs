//! RTP payloads: cutting a coded stream into packets and joining packets into a
//! stream again.
//!
//! In the current payload format a packet that begins at a start code leaves
//! out the two zero bytes that every start code begins with, and says so with
//! its P flag; other packets carry on in the middle of a segment. In the older
//! format every packet begins at a start code and carries it in full.

use crate::bits;
use crate::error::Error;
use crate::picture_header;
use crate::picture_header::{
    parse_picture_layer, H263PictureCodingType, H263PictureHeader, H263PictureLayer,
    H263SourceFormat,
};
use crate::plus_ptype::InheritedExtendedState;
use oxideav_core::bits::BitReader;
use vstd::prelude::*;
use vstd::slice::slice_subrange;

verus! {

/// Length of the fixed part of a payload header.
pub const PAYLOAD_HEADER_BYTES: usize = 2;

/// Length of the VRC extension.
pub const VRC_HEADER_BYTES: usize = 1;

/// Longest picture header that a payload header can carry.
pub const PLEN_MAX: u8 = 63;

/// Length of a Mode A payload header of the older format.
pub const RFC2190_MODE_A_BYTES: usize = 4;

/// Video redundancy coding extension.
#[derive(Clone, Copy, Debug, PartialEq, Eq, Structural)]
pub struct VrcHeader {
    /// Thread, below 8.
    pub tid: u8,
    /// Packet number within the thread, below 16.
    pub trun: u8,
    /// The packet belongs to a sync frame.
    pub sync: bool,
}

/// A payload header.
#[derive(Clone, Debug, PartialEq, Eq)]
pub struct H263PayloadHeader {
    /// The packet begins at a start code whose two zero bytes are left out.
    pub p: bool,
    pub vrc: Option<VrcHeader>,
    /// A copy of the picture header without its two zero bytes, or nothing.
    pub extra_picture_header: Vec<u8>,
    /// Bits to ignore at the end of that copy.
    pub pebit: u8,
}

/// What a payload header says.
#[verifier::ext_equal]
pub struct PayloadHeader {
    pub p: bool,
    pub vrc: Option<VrcHeader>,
    pub extra: Seq<u8>,
    pub pebit: u8,
}

impl View for H263PayloadHeader {
    type V = PayloadHeader;

    open spec fn view(&self) -> PayloadHeader {
        PayloadHeader {
            p: self.p,
            vrc: self.vrc,
            extra: self.extra_picture_header@,
            pebit: self.pebit,
        }
    }
}

/// The VRC fields fit their widths.
pub open spec fn is_vrc(v: Option<VrcHeader>) -> bool {
    v matches Some(v) ==> v.tid < 8 && v.trun < 16
}

/// The length and trailing bit count of a payload header fit together.
pub open spec fn is_extra(h: PayloadHeader) -> bool {
    h.extra.len() <= PLEN_MAX && h.pebit < 8 && (h.extra.len() == 0 ==> h.pebit == 0)
}

/// The first two bytes of a payload header: five zero bits, the flags P and V,
/// the length of the picture header in six bits and PEBIT in three.
pub open spec fn fixed_bytes(h: PayloadHeader) -> Seq<u8> {
    let word = 1024 * bits::bit_value(h.p) + 512 * bits::bit_value(h.vrc is Some) + 8
        * h.extra.len() + h.pebit as nat;
    seq![(word / 256) as u8, (word % 256) as u8]
}

/// The VRC extension: three bits of thread, four of number, one of flag.
pub open spec fn vrc_bytes(v: Option<VrcHeader>) -> Seq<u8> {
    match v {
        Some(v) => seq![(32 * v.tid + 2 * v.trun + bits::bit_value(v.sync)) as u8],
        None => Seq::empty(),
    }
}

/// A payload header on the wire.
#[verifier::opaque]
pub open spec fn header_bytes(h: PayloadHeader) -> Seq<u8> {
    fixed_bytes(h) + vrc_bytes(h.vrc) + h.extra
}

/// Append a payload header to `out`.
///
/// Where only the VRC extension is at fault, the two bytes before it are
/// already out.
pub fn write_payload_header(out: &mut Vec<u8>, header: &H263PayloadHeader) -> (res: Result<
    (),
    Error,
>)
    ensures
        res == (if is_extra(header@) && is_vrc(header.vrc) {
            Ok(())
        } else {
            Err(Error::RtpBadPayloadHeader)
        }),
        final(out)@ == old(out)@ + (if !is_extra(header@) {
            Seq::empty()
        } else if !is_vrc(header.vrc) {
            fixed_bytes(header@)
        } else {
            header_bytes(header@)
        }),
{
    proof {
        reveal(header_bytes);
    }
    let ghost before = out@;
    let plen = header.extra_picture_header.len();
    if plen > PLEN_MAX as usize {
        assert(out@ =~= before + Seq::<u8>::empty());
        return Err(Error::RtpBadPayloadHeader);
    }
    if header.pebit > 7 || (plen == 0 && header.pebit != 0) {
        assert(out@ =~= before + Seq::<u8>::empty());
        return Err(Error::RtpBadPayloadHeader);
    }
    let mut word: u16 = 8 * plen as u16 + header.pebit as u16;
    if header.p {
        word = word + 1024;
    }
    if header.vrc.is_some() {
        word = word + 512;
    }
    out.push((word / 256) as u8);
    out.push((word % 256) as u8);
    assert(out@ =~= before + fixed_bytes(header@));
    if let Some(vrc) = header.vrc {
        if vrc.tid > 7 || vrc.trun > 15 {
            return Err(Error::RtpBadPayloadHeader);
        }
        out.push(
            32 * vrc.tid + 2 * vrc.trun + if vrc.sync {
                1
            } else {
                0
            },
        );
    }
    assert(out@ =~= before + (fixed_bytes(header@) + vrc_bytes(header.vrc)));
    let ghost mid = out@;
    out.extend_from_slice(header.extra_picture_header.as_slice());
    assert(out@ =~= mid + header.extra_picture_header@);
    assert(out@ =~= before + header_bytes(header@));
    Ok(())
}

/// The fixed fields of the payload header of `b`: P, V, PLEN, PEBIT.
pub open spec fn fixed_fields(b: Seq<u8>) -> (bool, bool, int, int) {
    (
        (b[0] / 4) % 2 == 1,
        (b[0] / 2) % 2 == 1,
        (b[0] as int % 2) * 32 + b[1] as int / 8,
        b[1] as int % 8,
    )
}

/// What parsing the payload header at the front of `b` gives: the header and
/// the offset of the data behind it.
#[verifier::opaque]
pub open spec fn parsed_payload_header(b: Seq<u8>) -> Result<(PayloadHeader, int), Error> {
    let (p, v, plen, pebit) = fixed_fields(b);
    let at: int = if v {
        3
    } else {
        2
    };
    if b.len() < 2 {
        Err(Error::RtpTruncatedPacket)
    } else if plen == 0 && pebit != 0 {
        Err(Error::RtpBadPayloadHeader)
    } else if b.len() < at + plen {
        Err(Error::RtpTruncatedPacket)
    } else {
        Ok(
            (
                PayloadHeader {
                    p,
                    vrc: if v {
                        Some(
                            VrcHeader {
                                tid: (b[2] / 32) as u8,
                                trun: ((b[2] / 2) % 16) as u8,
                                sync: b[2] % 2 == 1,
                            },
                        )
                    } else {
                        None
                    },
                    extra: b.subrange(at, at + plen),
                    pebit: pebit as u8,
                },
                at + plen,
            ),
        )
    }
}

/// Parse the payload header at the front of a payload; the offset of the data
/// behind it comes back beside it.
pub fn parse_payload_header(payload: &[u8]) -> (res: Result<(H263PayloadHeader, usize), Error>)
    ensures
        match parsed_payload_header(payload@) {
            Ok((h, at)) => res matches Ok((header, offset)) && header@ == h && offset == at
                && offset <= payload@.len(),
            Err(e) => res matches Err(err) && err == e,
        },
{
    proof {
        reveal(parsed_payload_header);
    }
    if payload.len() < PAYLOAD_HEADER_BYTES {
        return Err(Error::RtpTruncatedPacket);
    }
    let p = (payload[0] / 4) % 2 == 1;
    let v = (payload[0] / 2) % 2 == 1;
    let plen: usize = (payload[0] % 2) as usize * 32 + (payload[1] / 8) as usize;
    let pebit: u8 = payload[1] % 8;
    if plen == 0 && pebit != 0 {
        return Err(Error::RtpBadPayloadHeader);
    }
    let mut offset = PAYLOAD_HEADER_BYTES;
    let vrc = if v {
        if payload.len() < 3 {
            return Err(Error::RtpTruncatedPacket);
        }
        offset = offset + VRC_HEADER_BYTES;
        let byte: u8 = payload[2];
        Some(VrcHeader { tid: byte / 32, trun: (byte / 2) % 16, sync: byte % 2 == 1 })
    } else {
        None
    };
    if payload.len() < offset + plen {
        return Err(Error::RtpTruncatedPacket);
    }
    let extra_picture_header = vstd::slice::slice_to_vec(
        slice_subrange(payload, offset, offset + plen),
    );
    Ok((H263PayloadHeader { p, vrc, extra_picture_header, pebit }, offset + plen))
}

/// Parsing a payload header undoes writing it, whatever data follows.
pub proof fn payload_header_round_trips(h: PayloadHeader, data: Seq<u8>)
    requires
        is_extra(h),
        is_vrc(h.vrc),
    ensures
        parsed_payload_header(header_bytes(h) + data) == Ok::<(PayloadHeader, int), Error>(
            (h, header_bytes(h).len() as int),
        ),
        header_bytes(h).len() == h.extra.len() + if h.vrc is Some {
            3int
        } else {
            2
        },
{
    reveal(header_bytes);
    reveal(parsed_payload_header);
    let b = header_bytes(h) + data;
    let f = fixed_bytes(h);
    let n = h.extra.len() as int;
    let word = 1024 * bits::bit_value(h.p) + 512 * bits::bit_value(h.vrc is Some) + 8 * n
        + h.pebit as int;
    assert(b[0] == f[0] && b[1] == f[1]);
    assert(f[0] == word / 256);
    assert(f[1] == word % 256);
    if let Some(v) = h.vrc {
        assert(b[2] == vrc_bytes(h.vrc)[0]);
        assert(b.subrange(3, 3 + n) =~= h.extra);
    } else {
        assert(b.subrange(2, 2 + n) =~= h.extra);
    }
}

/// A byte-aligned start code, 16 zero bits and a `1`, begins at byte `at`.
pub open spec fn is_start_code(s: Seq<u8>, at: int) -> bool {
    0 <= at && at + 3 <= s.len() && s[at] == 0 && s[at + 1] == 0 && s[at + 2] >= 128
}

fn is_start_code_at(data: &[u8], pos: usize) -> (b: bool)
    ensures
        b == is_start_code(data@, pos as int),
{
    pos < data.len() && data.len() - pos >= 3 && data[pos] == 0 && data[pos + 1] == 0 && data[pos
        + 2] >= 128
}

/// What a start code begins.
#[derive(Clone, Copy, Debug, PartialEq, Eq, Structural)]
enum StartCodeKind {
    Picture,
    GobOrSlice,
    SequenceEnd,
}

/// The five bits behind the start code at byte `at`.
pub open spec fn group_number(s: Seq<u8>, at: int) -> int {
    (s[at + 2] as int / 4) % 32
}

/// The start code at byte `at` begins a picture.
pub open spec fn begins_picture(s: Seq<u8>, at: int) -> bool {
    group_number(s, at) == 0
}

/// The start code at byte `at` ends a sequence.
pub open spec fn ends_sequence(s: Seq<u8>, at: int) -> bool {
    group_number(s, at) == 30 || group_number(s, at) == 31
}

fn start_code_kind(data: &[u8], pos: usize) -> (k: StartCodeKind)
    requires
        is_start_code(data@, pos as int),
    ensures
        (k == StartCodeKind::Picture) == begins_picture(data@, pos as int),
        (k == StartCodeKind::SequenceEnd) == ends_sequence(data@, pos as int),
{
    assert(data.len() == data@.len());
    match (data[pos + 2] / 4) % 32 {
        0 => StartCodeKind::Picture,
        30 | 31 => StartCodeKind::SequenceEnd,
        _ => StartCodeKind::GobOrSlice,
    }
}

/// The bit behind the PEI and PSUPP fields that begin at bit `at`, if they end
/// in the stream.
pub open spec fn psupp_end(s: Seq<bool>, at: int) -> Option<int>
    decreases s.len() - at,
{
    if !bits::has_bits(s, at, 1) {
        None
    } else if !s[at] {
        Some(at + 1)
    } else if !bits::has_bits(s, at, 9) {
        None
    } else {
        psupp_end(s, at + 9)
    }
}

/// The bit behind PQUANT, CPM and, in PB-frames, TRB and DBQUANT of a picture
/// header without extended type.
pub open spec fn baseline_fields_end(s: Seq<bool>, h: H263PictureHeader) -> int {
    49 + (if s[48] {
        2int
    } else {
        0
    }) + (if h.pb_frames {
        5int
    } else {
        0
    })
}

/// The bit behind the whole header of the picture at the beginning of `s`, if
/// the header can stand alone: one that carries its modes over cannot.
pub open spec fn whole_header_end(s: Seq<bool>) -> Result<Option<int>, Error> {
    let fresh = InheritedExtendedState::fresh();
    match picture_header::parsed_picture_layer(s, 0, fresh) {
        Err(e) => Err(e),
        Ok(H263PictureLayer::Baseline(h)) => {
            let end = baseline_fields_end(s, h);
            if !bits::has_bits(s, 43, 6) || end > s.len() || psupp_end(s, end)
                is None {
                Err(Error::UnexpectedEof)
            } else {
                Ok(psupp_end(s, end))
            }
        },
        Ok(H263PictureLayer::Extended(e)) => {
            let end = picture_header::picture_layer_end(s, 0, fresh) + 5;
            if e.plus.opptype is None {
                Ok(None)
            } else if end > s.len() || psupp_end(s, end) is None {
                Err(Error::UnexpectedEof)
            } else {
                Ok(psupp_end(s, end))
            }
        },
    }
}

/// The copy of a picture's header that packets may carry, and the bits to
/// ignore at its end: the header without its two zero bytes, in whole bytes.
#[verifier::opaque]
pub open spec fn redundant_header(picture: Seq<u8>) -> Result<Option<(Seq<u8>, int)>, Error> {
    match whole_header_end(bits::bits_of_bytes(picture)) {
        Err(e) => Err(e),
        Ok(None) => Ok(None),
        Ok(Some(end)) => {
            let plen = (end - 16 + 7) / 8;
            if plen > PLEN_MAX || picture.len() < 2 + plen {
                Ok(None)
            } else {
                Ok(Some((picture.subrange(2, 2 + plen), 8 * plen - (end - 16))))
            }
        },
    }
}

proof fn lemma_psupp_end(s: Seq<bool>, at: int)
    ensures
        psupp_end(s, at) matches Some(end) ==> at < end <= s.len(),
    decreases s.len() - at,
{
    if bits::has_bits(s, at, 9) {
        lemma_psupp_end(s, at + 9);
    }
}

proof fn lemma_header_end(s: Seq<bool>)
    ensures
        whole_header_end(s) matches Ok(Some(end)) ==> 43 < end <= s.len(),
{
    let fresh = InheritedExtendedState::fresh();
    if let Ok(H263PictureLayer::Baseline(h)) = picture_header::parsed_picture_layer(s, 0, fresh) {
        lemma_psupp_end(s, baseline_fields_end(s, h));
    } else {
        lemma_psupp_end(s, picture_header::picture_layer_end(s, 0, fresh) + 5);
    }
}

/// The copy of a picture's header that packets may carry, with the number of
/// bits to ignore at its end; `None` where the header cannot stand alone or is
/// too long.
pub fn redundant_picture_header(picture: &[u8]) -> (res: Result<Option<(Vec<u8>, u8)>, Error>)
    requires
        8 * picture@.len() + 64 <= u64::MAX,
    ensures
        match redundant_header(picture@) {
            Err(e) => res matches Err(err) && err == e,
            Ok(None) => res matches Ok(r) && r is None,
            Ok(Some((h, n))) => res matches Ok(r) && r matches Some((header, pebit)) && header@ == h
                && pebit == n && pebit < 8 && 1 <= h.len() <= 63,
        },
{
    let mut r = BitReader::new(picture);
    let ghost s = bits::stream(r);
    let ghost fresh = InheritedExtendedState::fresh();
    proof {
        reveal(redundant_header);
        lemma_header_end(s);
    }
    match parse_picture_layer(&mut r, InheritedExtendedState::default())? {
        H263PictureLayer::Baseline(h) => {
            bits::skip_field(&mut r, 5)?;
            let cpm = bits::read_flag(&mut r)?;
            if cpm {
                bits::skip_field(&mut r, 2)?;
            }
            if h.pb_frames {
                bits::skip_field(&mut r, 5)?;
            }
        },
        H263PictureLayer::Extended(e) => {
            if e.plus.opptype.is_none() {
                return Ok(None);
            }
            bits::skip_field(&mut r, 5)?;
        },
    }
    let ghost start = bits::bits_read(r) as int;
    loop
        invariant_except_break
            psupp_end(s, start) == psupp_end(s, bits::bits_read(r) as int),
        invariant
            bits::stream(r) == s,
            s.len() == 8 * picture@.len(),
            bits::bits_read(r) <= s.len(),
            whole_header_end(s) == (match psupp_end(s, start) {
                Some(end) => Ok(Some(end)),
                None => Err(Error::UnexpectedEof),
            }),
            s == bits::bits_of_bytes(picture@),
        ensures
            bits::stream(r) == s,
            psupp_end(s, start) == Some(bits::bits_read(r) as int),
        decreases s.len() - bits::bits_read(r),
    {
        proof {
            reveal(redundant_header);
        }
        let pei = bits::read_flag(&mut r)?;
        if !pei {
            break;
        }
        bits::skip_field(&mut r, 8)?;
    }
    let header_bits: u64 = r.bit_position();
    let payload_bits: u64 = header_bits - 16;
    let plen: u64 = (payload_bits + 7) / 8;
    if plen > PLEN_MAX as u64 || picture.len() < 2 + plen as usize {
        return Ok(None);
    }
    let pebit: u8 = (plen * 8 - payload_bits) as u8;
    let header = vstd::slice::slice_to_vec(slice_subrange(picture, 2, 2 + plen as usize));
    Ok(Some((header, pebit)))
}

/// The picture header that a payload header carries a copy of, with its two
/// zero bytes.
pub fn assemble_picture_header(header: &H263PayloadHeader) -> (res: Option<Vec<u8>>)
    ensures
        match res {
            None => header.extra_picture_header@.len() == 0,
            Some(b) => header.extra_picture_header@.len() > 0 && b@ == seq![0u8, 0u8]
                + header.extra_picture_header@,
        },
{
    if header.extra_picture_header.len() == 0 {
        return None;
    }
    let mut out: Vec<u8> = Vec::new();
    out.push(0);
    out.push(0);
    out.extend_from_slice(header.extra_picture_header.as_slice());
    assert(out@ =~= seq![0u8, 0u8] + header.extra_picture_header@);
    Some(out)
}

/// How to cut a stream into packets.
#[derive(Clone, Copy, Debug)]
pub struct PacketizeConfig {
    /// Longest payload, payload header included.
    pub max_payload: usize,
    /// Packets that begin at a group of blocks or a slice carry a copy of the
    /// picture header, where there is one and room for it.
    pub attach_picture_header: bool,
}

impl Default for PacketizeConfig {
    fn default() -> (cfg: PacketizeConfig)
        ensures
            cfg.max_payload == 1440,
            !cfg.attach_picture_header,
    {
        PacketizeConfig { max_payload: 1440, attach_picture_header: false }
    }
}

/// The first start code at or behind byte `at` that begins a picture or ends a
/// sequence, or else the end of the stream: no packet runs past it.
pub open spec fn stop_from(s: Seq<u8>, at: int) -> int
    decreases s.len() - at,
{
    if at >= s.len() {
        s.len() as int
    } else if is_start_code(s, at) && (begins_picture(s, at) || ends_sequence(s, at)) {
        at
    } else {
        stop_from(s, at + 1)
    }
}

/// The last start code behind byte `low` and not behind byte `high`.
pub open spec fn last_code(s: Seq<u8>, low: int, high: int) -> Option<int>
    decreases high - low,
{
    if high <= low {
        None
    } else if is_start_code(s, high) {
        Some(high)
    } else {
        last_code(s, low, high - 1)
    }
}

/// The farthest byte that a packet with data from byte `start` on and room for
/// `budget` bytes can reach.
pub open spec fn reach(s: Seq<u8>, pos: int, start: int, budget: int) -> int {
    let stop = stop_from(s, pos + 1);
    if start + budget < stop {
        start + budget
    } else {
        stop
    }
}

/// Where the packet that begins at byte `pos` ends: at the stop if that is in
/// reach, else at the last start code in reach, else as far as it reaches.
pub open spec fn cut_of(s: Seq<u8>, pos: int, start: int, budget: int) -> int {
    let far = reach(s, pos, start, budget);
    if far == stop_from(s, pos + 1) {
        far
    } else {
        match last_code(s, start, far) {
            Some(b) => b,
            None => far,
        }
    }
}

/// Where the data of the packet that begins at byte `pos` begins.
pub open spec fn data_start(s: Seq<u8>, pos: int) -> int {
    if is_start_code(s, pos) {
        pos + 2
    } else {
        pos
    }
}

/// The picture header copy in force for the packet that begins at byte `pos`;
/// `kept` was in force before.
pub open spec fn header_in_force(
    s: Seq<u8>,
    pos: int,
    kept: Option<(Seq<u8>, int)>,
    cfg: PacketizeConfig,
) -> Result<Option<(Seq<u8>, int)>, Error> {
    if is_start_code(s, pos) && begins_picture(s, pos) && cfg.attach_picture_header {
        redundant_header(s.subrange(pos, s.len() as int))
    } else {
        Ok(kept)
    }
}

/// The picture header copy that the packet that begins at byte `pos` carries.
pub open spec fn header_carried(
    s: Seq<u8>,
    pos: int,
    kept: Option<(Seq<u8>, int)>,
    cfg: PacketizeConfig,
) -> (Seq<u8>, int) {
    match kept {
        Some((h, n)) if is_start_code(s, pos) && !begins_picture(s, pos) && !ends_sequence(s, pos)
            && cfg.attach_picture_header && cfg.max_payload >= 3 + h.len() => (h, n),
        _ => (Seq::empty(), 0),
    }
}

/// Where the packet that begins at byte `pos` ends; `now` is the picture header
/// copy in force.
pub open spec fn packet_end(
    s: Seq<u8>,
    pos: int,
    now: Option<(Seq<u8>, int)>,
    cfg: PacketizeConfig,
) -> int {
    cut_of(
        s,
        pos,
        data_start(s, pos),
        cfg.max_payload - 2 - header_carried(s, pos, now, cfg).0.len(),
    )
}

/// The packet that begins at byte `pos`.
pub open spec fn packet_at(
    s: Seq<u8>,
    pos: int,
    now: Option<(Seq<u8>, int)>,
    cfg: PacketizeConfig,
) -> Seq<u8> {
    let (extra, pebit) = header_carried(s, pos, now, cfg);
    header_bytes(
        PayloadHeader { p: is_start_code(s, pos), vrc: None, extra, pebit: pebit as u8 },
    ) + s.subrange(data_start(s, pos), packet_end(s, pos, now, cfg))
}

/// The packets of a stream from byte `pos` on; `kept` is the picture header
/// copy in force.
pub open spec fn packets_from(
    s: Seq<u8>,
    pos: int,
    kept: Option<(Seq<u8>, int)>,
    cfg: PacketizeConfig,
) -> Result<Seq<Seq<u8>>, Error>
    decreases s.len() - pos,
{
    if pos >= s.len() {
        Ok(Seq::empty())
    } else {
        match header_in_force(s, pos, kept, cfg) {
            Err(e) => Err(e),
            Ok(now) => {
                let cut = packet_end(s, pos, now, cfg);
                let packet = packet_at(s, pos, now, cfg);
                if cut <= pos || cut > s.len() {
                    Ok(Seq::empty())
                } else {
                    match packets_from(s, cut, now, cfg) {
                        Err(e) => Err(e),
                        Ok(rest) => Ok(seq![packet] + rest),
                    }
                }
            },
        }
    }
}

/// What cutting a stream into packets gives.
pub open spec fn packets(s: Seq<u8>, cfg: PacketizeConfig) -> Result<Seq<Seq<u8>>, Error> {
    if cfg.max_payload < 3 {
        Err(Error::RtpPayloadTooSmall)
    } else if s.len() > 0 && !is_start_code(s, 0) {
        Err(Error::BadPictureStartCode)
    } else {
        packets_from(s, 0, None, cfg)
    }
}

proof fn lemma_stop(s: Seq<u8>, at: int)
    requires
        0 <= at <= s.len(),
    ensures
        at <= stop_from(s, at) <= s.len(),
        stop_from(s, at) < s.len() ==> is_start_code(s, stop_from(s, at)),
    decreases s.len() - at,
{
    if at < s.len() {
        lemma_stop(s, at + 1);
    }
}

proof fn lemma_last_code(s: Seq<u8>, low: int, high: int)
    ensures
        last_code(s, low, high) matches Some(b) ==> low < b <= high && is_start_code(s, b),
    decreases high - low,
{
    if low < high {
        lemma_last_code(s, low, high - 1);
    }
}

/// A start code is followed by the next one three bytes on at the earliest.
proof fn lemma_codes_apart(s: Seq<u8>, pos: int)
    requires
        is_start_code(s, pos),
    ensures
        stop_from(s, pos + 1) == stop_from(s, pos + 3),
        stop_from(s, pos + 1) >= pos + 3,
{
    reveal_with_fuel(stop_from, 3);
    lemma_stop(s, pos + 3);
}

proof fn lemma_cut(s: Seq<u8>, pos: int, budget: int)
    requires
        0 <= pos < s.len(),
        budget >= 1,
    ensures
        ({
            let start = data_start(s, pos);
            let cut = cut_of(s, pos, start, budget);
            &&& pos <= start < reach(s, pos, start, budget) <= s.len()
            &&& pos <= start < cut <= s.len()
            &&& cut - start <= budget
        }),
{
    let start = data_start(s, pos);
    lemma_stop(s, pos + 1);
    if is_start_code(s, pos) {
        lemma_codes_apart(s, pos);
    }
    lemma_last_code(s, start, reach(s, pos, start, budget));
}

/// No byte before the stop begins a picture or ends a sequence.
proof fn lemma_before_stop(s: Seq<u8>, at: int, j: int)
    requires
        at <= j < stop_from(s, at),
    ensures
        !(is_start_code(s, j) && (begins_picture(s, j) || ends_sequence(s, j))),
    decreases j - at,
{
    if at < j {
        lemma_before_stop(s, at + 1, j);
    }
}

/// Every picture and every end of sequence begins a packet: no packet that
/// begins before it runs past it.
pub proof fn pictures_begin_packets(
    s: Seq<u8>,
    pos: int,
    now: Option<(Seq<u8>, int)>,
    cfg: PacketizeConfig,
    j: int,
)
    requires
        0 <= pos < s.len(),
        cfg.max_payload >= 3,
        pos < j < packet_end(s, pos, now, cfg),
    ensures
        !(is_start_code(s, j) && (begins_picture(s, j) || ends_sequence(s, j))),
{
    let extra = header_carried(s, pos, now, cfg).0;
    lemma_cut(s, pos, cfg.max_payload - 2 - extra.len());
    let start = data_start(s, pos);
    lemma_last_code(s, start, reach(s, pos, start, cfg.max_payload - 2 - extra.len()));
    lemma_before_stop(s, pos + 1, j);
}

/// No packet is longer than its limit.
pub proof fn packets_fit_their_limit(
    s: Seq<u8>,
    pos: int,
    now: Option<(Seq<u8>, int)>,
    cfg: PacketizeConfig,
)
    requires
        0 <= pos < s.len(),
        cfg.max_payload >= 3,
    ensures
        packet_at(s, pos, now, cfg).len() <= cfg.max_payload,
{
    reveal(header_bytes);
    let extra = header_carried(s, pos, now, cfg).0;
    lemma_cut(s, pos, cfg.max_payload - 2 - extra.len());
}

/// The header that a packet's copy is assembled to is the beginning of the
/// picture that the copy was taken from.
pub proof fn copies_are_the_header(picture: Seq<u8>)
    requires
        is_start_code(picture, 0),
    ensures
        redundant_header(picture) matches Ok(Some((copy, unused))) ==> {
            &&& seq![0u8, 0u8] + copy == picture.subrange(0, 2 + copy.len() as int)
            &&& 0 <= unused < 8
            &&& whole_header_end(bits::bits_of_bytes(picture)) == Ok::<Option<int>, Error>(
                Some(8 * (2 + copy.len()) - unused),
            )
        },
{
    reveal(redundant_header);
    lemma_header_end(bits::bits_of_bytes(picture));
    if let Ok(Some((copy, unused))) = redundant_header(picture) {
        assert(seq![0u8, 0u8] + copy =~= picture.subrange(0, 2 + copy.len() as int));
    }
}

proof fn lemma_psupp_begins(t: Seq<bool>, s: Seq<bool>, at: int)
    requires
        bits::begins(t, s),
        0 <= at,
        psupp_end(s, at) matches Some(end) && end <= t.len(),
    ensures
        psupp_end(t, at) == psupp_end(s, at),
    decreases s.len() - at,
{
    lemma_psupp_end(s, at);
    if s[at] {
        lemma_psupp_end(s, at + 9);
        lemma_psupp_begins(t, s, at + 9);
    }
}

/// The header that a packet's copy is assembled to parses as the picture's own
/// header does, and ends at the same bit.
pub proof fn assembled_headers_parse_alike(picture: Seq<u8>)
    requires
        is_start_code(picture, 0),
    ensures
        redundant_header(picture) matches Ok(Some((copy, unused))) ==> {
            let t = bits::bits_of_bytes(seq![0u8, 0u8] + copy);
            let s = bits::bits_of_bytes(picture);
            let fresh = InheritedExtendedState::fresh();
            &&& picture_header::parsed_picture_layer(t, 0, fresh)
                == picture_header::parsed_picture_layer(s, 0, fresh)
            &&& whole_header_end(t) == whole_header_end(s)
        },
{
    if let Ok(Some((copy, unused))) = redundant_header(picture) {
        let t = bits::bits_of_bytes(seq![0u8, 0u8] + copy);
        let s = bits::bits_of_bytes(picture);
        let fresh = InheritedExtendedState::fresh();
        copies_are_the_header(picture);
        lemma_header_end(s);
        bits::lemma_bits_begin(picture, 2 + copy.len() as int);
        let end = whole_header_end(s)->Ok_0->Some_0;
        assert(end <= t.len());
        let after = match picture_header::parsed_picture_layer(s, 0, fresh)->Ok_0 {
            H263PictureLayer::Baseline(h) => baseline_fields_end(s, h),
            H263PictureLayer::Extended(e) => picture_header::picture_layer_end(s, 0, fresh) + 5,
        };
        lemma_psupp_end(s, after);
        picture_header::lemma_picture_layer_begins(t, s, fresh);
        lemma_psupp_begins(t, s, after);
    }
}

fn find_stop(stream: &[u8], from: usize) -> (stop: usize)
    requires
        from <= stream@.len(),
    ensures
        stop == stop_from(stream@, from as int),
        from <= stop <= stream@.len(),
{
    let mut at = from;
    proof {
        lemma_stop(stream@, from as int);
    }
    while at < stream.len()
        invariant
            from <= at <= stream@.len(),
            stop_from(stream@, from as int) == stop_from(stream@, at as int),
        decreases stream@.len() - at,
    {
        if is_start_code_at(stream, at) {
            let kind = start_code_kind(stream, at);
            if kind == StartCodeKind::Picture || kind == StartCodeKind::SequenceEnd {
                return at;
            }
        }
        at = at + 1;
    }
    at
}

fn find_last_code(stream: &[u8], low: usize, high: usize) -> (found: Option<usize>)
    ensures
        match last_code(stream@, low as int, high as int) {
            Some(b) => found matches Some(f) && f == b,
            None => found is None,
        },
{
    let mut at = high;
    while at > low
        invariant
            at <= high,
            last_code(stream@, low as int, high as int) == last_code(
                stream@,
                low as int,
                at as int,
            ),
        decreases at,
    {
        if is_start_code_at(stream, at) {
            return Some(at);
        }
        at = at - 1;
    }
    None
}

/// The contents of some byte vectors.
pub open spec fn contents(v: Seq<Vec<u8>>) -> Seq<Seq<u8>> {
    Seq::new(v.len(), |k: int| v[k]@)
}

/// The contents of a picture header copy.
spec fn copy_view(c: Option<(Vec<u8>, u8)>) -> Option<(Seq<u8>, int)> {
    match c {
        Some((h, n)) => Some((h@, n as int)),
        None => None,
    }
}

/// A list of packets with one more in front.
spec fn with_rest(
    done: Seq<Seq<u8>>,
    rest: Result<Seq<Seq<u8>>, Error>,
) -> Result<Seq<Seq<u8>>, Error> {
    match rest {
        Ok(r) => Ok(done + r),
        Err(e) => Err(e),
    }
}

/// The picture header copy that the packet at byte `pos` carries.
fn carried_header(
    stream: &[u8],
    pos: usize,
    kept: &Option<(Vec<u8>, u8)>,
    cfg: PacketizeConfig,
) -> (r: (Vec<u8>, u8))
    requires
        pos < stream@.len(),
        cfg.max_payload >= 3,
        kept matches Some((h, n)) ==> 1 <= h@.len() <= 63 && n < 8,
    ensures
        ({
            let carried = header_carried(stream@, pos as int, copy_view(*kept), cfg);
            r.0@ == carried.0 && r.1 == carried.1
        }),
        r.0@.len() + 3 <= cfg.max_payload,
        r.0@.len() <= 63,
        r.1 < 8,
        r.0@.len() == 0 ==> r.1 == 0,
{
    if cfg.attach_picture_header && is_start_code_at(stream, pos) && start_code_kind(stream, pos)
        == StartCodeKind::GobOrSlice {
        if let Some((header, n)) = kept {
            if cfg.max_payload >= PAYLOAD_HEADER_BYTES + header.len() + 1 {
                let copy: Vec<u8> = vstd::slice::slice_to_vec(header.as_slice());
                assert(copy@ =~= header@);
                return (copy, *n);
            }
        }
    }
    let none: Vec<u8> = Vec::new();
    assert(none@ =~= Seq::empty());
    (none, 0)
}

/// Where the packet at byte `pos` ends.
fn find_cut(stream: &[u8], pos: usize, start: usize, budget: usize) -> (cut: usize)
    requires
        pos < stream@.len(),
        start == data_start(stream@, pos as int),
        budget >= 1,
    ensures
        cut == cut_of(stream@, pos as int, start as int, budget as int),
        start < cut <= stream@.len(),
{
    proof {
        lemma_cut(stream@, pos as int, budget as int);
    }
    assert(stream.len() == stream@.len());
    let stop: usize = find_stop(stream, pos + 1);
    let far: usize = if budget < stop - start {
        start + budget
    } else {
        stop
    };
    if far == stop {
        return far;
    }
    match find_last_code(stream, start, far) {
        Some(b) => b,
        None => far,
    }
}

/// The packet at byte `pos`, and where it ends.
fn next_packet(
    stream: &[u8],
    pos: usize,
    kept: &Option<(Vec<u8>, u8)>,
    cfg: PacketizeConfig,
) -> (res: Result<(Vec<u8>, usize), Error>)
    requires
        pos < stream@.len(),
        cfg.max_payload >= 3,
        kept matches Some((h, n)) ==> 1 <= h@.len() <= 63 && n < 8,
    ensures
        res matches Ok((packet, cut)) && packet@ == packet_at(
            stream@,
            pos as int,
            copy_view(*kept),
            cfg,
        ) && cut == packet_end(stream@, pos as int, copy_view(*kept), cfg) && pos < cut
            <= stream@.len(),
{
    let ghost s = stream@;
    let (extra_picture_header, pebit): (Vec<u8>, u8) = carried_header(stream, pos, kept, cfg);
    let budget: usize = cfg.max_payload - PAYLOAD_HEADER_BYTES - extra_picture_header.len();
    let at_code = is_start_code_at(stream, pos);
    assert(stream.len() == stream@.len());
    proof {
        lemma_cut(s, pos as int, budget as int);
    }
    let start: usize = if at_code {
        pos + 2
    } else {
        pos
    };
    let cut: usize = find_cut(stream, pos, start, budget);
    let mut packet: Vec<u8> = Vec::new();
    let header = H263PayloadHeader { p: at_code, vrc: None, extra_picture_header, pebit };
    write_payload_header(&mut packet, &header)?;
    let ghost head = packet@;
    packet.extend_from_slice(slice_subrange(stream, start, cut));
    proof {
        assert(head =~= header_bytes(header@));
        assert(packet@ =~= header_bytes(header@) + s.subrange(start as int, cut as int));
    }
    Ok((packet, cut))
}

/// Cut a stream, which begins with a start code, into payloads.
///
/// Every picture and every end of sequence begins a packet. Within a picture a
/// packet ends at the last start code that fits, if any, and else in the middle
/// of a segment.
pub fn packetize_stream(stream: &[u8], cfg: PacketizeConfig) -> (res: Result<Vec<Vec<u8>>, Error>)
    requires
        cfg.attach_picture_header ==> 8 * stream@.len() + 64 <= u64::MAX,
    ensures
        match packets(stream@, cfg) {
            Ok(p) => res matches Ok(payloads) && contents(payloads@) == p,
            Err(e) => res matches Err(err) && err == e,
        },
{
    if cfg.max_payload < PAYLOAD_HEADER_BYTES + 1 {
        return Err(Error::RtpPayloadTooSmall);
    }
    let mut payloads: Vec<Vec<u8>> = Vec::new();
    if stream.len() == 0 {
        assert(contents(payloads@) =~= Seq::empty());
        return Ok(payloads);
    }
    if !is_start_code_at(stream, 0) {
        return Err(Error::BadPictureStartCode);
    }
    let ghost s = stream@;
    let ghost all = packets(s, cfg);
    let mut pos: usize = 0;
    let mut kept: Option<(Vec<u8>, u8)> = None;
    proof {
        assert(contents(payloads@) =~= Seq::empty());
        if let Ok(r) = packets_from(s, 0, None, cfg) {
            assert(Seq::<Seq<u8>>::empty() + r =~= r);
        }
    }
    while pos < stream.len()
        invariant
            s == stream@,
            pos <= s.len(),
            cfg.max_payload >= 3,
            cfg.attach_picture_header ==> 8 * s.len() + 64 <= u64::MAX,
            all == packets(s, cfg),
            all == with_rest(
                contents(payloads@),
                packets_from(s, pos as int, copy_view(kept), cfg),
            ),
            kept matches Some((h, n)) ==> 1 <= h@.len() <= 63 && n < 8,
        decreases s.len() - pos,
    {
        if cfg.attach_picture_header && is_start_code_at(stream, pos) && start_code_kind(
            stream,
            pos,
        ) == StartCodeKind::Picture {
            kept = redundant_picture_header(slice_subrange(stream, pos, stream.len()))?;
        }
        let ghost now = copy_view(kept);
        let (packet, cut): (Vec<u8>, usize) = next_packet(stream, pos, &kept, cfg)?;
        let ghost done = contents(payloads@);
        let ghost packet_bytes = packet@;
        payloads.push(packet);
        proof {
            assert(contents(payloads@) =~= done + seq![packet_bytes]);
            if let Ok(r) = packets_from(s, cut as int, now, cfg) {
                assert(done + (seq![packet_bytes] + r) =~= contents(payloads@) + r);
            }
        }
        pos = cut;
    }
    proof {
        assert(contents(payloads@) + Seq::<Seq<u8>>::empty() =~= contents(payloads@));
    }
    Ok(payloads)
}

/// What joining payloads gives; only a stream's first payload has to begin at a
/// start code.
pub open spec fn joined(payloads: Seq<Seq<u8>>, first: bool) -> Result<Seq<u8>, Error>
    decreases payloads.len(),
{
    if payloads.len() == 0 {
        Ok(Seq::empty())
    } else {
        match parsed_payload_header(payloads[0]) {
            Err(e) => Err(e),
            Ok((h, at)) => if first && !h.p {
                Err(Error::RtpBadPayloadHeader)
            } else {
                match joined(payloads.skip(1), false) {
                    Err(e) => Err(e),
                    Ok(rest) => Ok(
                        (if h.p {
                            seq![0u8, 0u8]
                        } else {
                            Seq::empty()
                        }) + payloads[0].skip(at) + rest,
                    ),
                }
            },
        }
    }
}

/// Join payloads, in the order of sending and with none lost, into a stream.
pub fn depacketize_payloads(payloads: &[Vec<u8>]) -> (res: Result<Vec<u8>, Error>)
    ensures
        match joined(contents(payloads@), true) {
            Ok(s) => res matches Ok(stream) && stream@ == s,
            Err(e) => res matches Err(err) && err == e,
        },
{
    let ghost c = contents(payloads@);
    let ghost all = joined(c, true);
    let mut stream: Vec<u8> = Vec::new();
    let mut k: usize = 0;
    proof {
        assert(c.skip(0) =~= c);
        if let Ok(r) = all {
            assert(stream@ + r =~= r);
        }
    }
    while k < payloads.len()
        invariant
            k <= payloads@.len(),
            c == contents(payloads@),
            all == joined(c, true),
            all == (match joined(c.skip(k as int), k == 0) {
                Ok(r) => Ok(stream@ + r),
                Err(e) => Err(e),
            }),
        decreases payloads@.len() - k,
    {
        let payload = payloads[k].as_slice();
        let ghost before = stream@;
        proof {
            assert(c.skip(k as int)[0] == payload@);
            assert(c.skip(k as int).skip(1) =~= c.skip(k + 1));
        }
        let (header, offset) = parse_payload_header(payload)?;
        if k == 0 && !header.p {
            return Err(Error::RtpBadPayloadHeader);
        }
        if header.p {
            stream.push(0);
            stream.push(0);
        }
        let ghost mid = stream@;
        stream.extend_from_slice(slice_subrange(payload, offset, payload.len()));
        proof {
            let lead = if header.p {
                seq![0u8, 0u8]
            } else {
                Seq::empty()
            };
            assert(mid =~= before + lead);
            assert(stream@ =~= before + (lead + payload@.skip(offset as int)));
            if let Ok(r) = joined(c.skip(k + 1), false) {
                assert(before + (lead + payload@.skip(offset as int) + r) =~= stream@ + r);
            }
        }
        k = k + 1;
    }
    proof {
        assert(c.skip(k as int) =~= Seq::empty());
        assert(stream@ + Seq::<u8>::empty() =~= stream@);
    }
    Ok(stream)
}

/// Joining a packet in front of others.
proof fn lemma_join_one(h: PayloadHeader, data: Seq<u8>, rest: Seq<Seq<u8>>, first: bool)
    requires
        is_extra(h),
        is_vrc(h.vrc),
        first ==> h.p,
        joined(rest, false) is Ok,
    ensures
        joined(seq![header_bytes(h) + data] + rest, first) == Ok::<Seq<u8>, Error>(
            (if h.p {
                seq![0u8, 0u8]
            } else {
                Seq::empty()
            }) + data + joined(rest, false)->Ok_0,
        ),
{
    let p = seq![header_bytes(h) + data] + rest;
    payload_header_round_trips(h, data);
    assert(p.skip(1) =~= rest);
    assert(p[0].skip(header_bytes(h).len() as int) =~= data);
}

/// What one packet holds: its header, the data behind it and where it ends.
proof fn lemma_packet(s: Seq<u8>, pos: int, kept: Option<(Seq<u8>, int)>, cfg: PacketizeConfig)
    requires
        0 <= pos < s.len(),
        cfg.max_payload >= 3,
        kept matches Some((h, n)) ==> 1 <= h.len() <= 63 && 0 <= n < 8,
    ensures
        ({
            let (extra, pebit) = header_carried(s, pos, kept, cfg);
            let start = data_start(s, pos);
            let cut = cut_of(s, pos, start, cfg.max_payload - 2 - extra.len());
            let h = PayloadHeader {
                p: is_start_code(s, pos),
                vrc: None,
                extra,
                pebit: pebit as u8,
            };
            let data = s.subrange(start, cut);
            &&& is_extra(h)
            &&& pos < cut <= s.len()
            &&& 2 < (header_bytes(h) + data).len() <= cfg.max_payload
            &&& (if h.p {
                seq![0u8, 0u8]
            } else {
                Seq::empty()
            }) + data + s.skip(cut) == s.skip(pos)
        }),
{
    let (extra, pebit) = header_carried(s, pos, kept, cfg);
    let start = data_start(s, pos);
    let budget = cfg.max_payload - 2 - extra.len();
    lemma_cut(s, pos, budget);
    let cut = cut_of(s, pos, start, budget);
    let h = PayloadHeader { p: is_start_code(s, pos), vrc: None, extra, pebit: pebit as u8 };
    let data = s.subrange(start, cut);
    payload_header_round_trips(h, data);
    let lead = if h.p {
        seq![0u8, 0u8]
    } else {
        Seq::empty()
    };
    assert(lead + data + s.skip(cut) =~= s.skip(pos));
}

proof fn lemma_packets_join(
    s: Seq<u8>,
    pos: int,
    kept: Option<(Seq<u8>, int)>,
    cfg: PacketizeConfig,
)
    requires
        0 <= pos <= s.len(),
        cfg.max_payload >= 3,
        pos == 0 && s.len() > 0 ==> is_start_code(s, 0),
        kept matches Some((h, n)) ==> 1 <= h.len() <= 63 && 0 <= n < 8,
        packets_from(s, pos, kept, cfg) is Ok,
    ensures
        joined(packets_from(s, pos, kept, cfg)->Ok_0, pos == 0) == Ok::<Seq<u8>, Error>(
            s.skip(pos),
        ),
        forall|k: int|
            0 <= k < packets_from(s, pos, kept, cfg)->Ok_0.len() ==> 2
                < (#[trigger] packets_from(s, pos, kept, cfg)->Ok_0[k]).len() <= cfg.max_payload,
    decreases s.len() - pos,
{
    if pos >= s.len() {
        assert(s.skip(pos) =~= Seq::empty());
    } else {
        let now = header_in_force(s, pos, kept, cfg)->Ok_0;
        lemma_redundant(s.subrange(pos, s.len() as int));
        lemma_packet(s, pos, now, cfg);
        let (extra, pebit) = header_carried(s, pos, now, cfg);
        let start = data_start(s, pos);
        let cut = cut_of(s, pos, start, cfg.max_payload - 2 - extra.len());
        let h = PayloadHeader { p: is_start_code(s, pos), vrc: None, extra, pebit: pebit as u8 };
        let data = s.subrange(start, cut);
        lemma_packets_join(s, cut, now, cfg);
        let rest = packets_from(s, cut, now, cfg)->Ok_0;
        let p = seq![header_bytes(h) + data] + rest;
        assert(packets_from(s, pos, kept, cfg) == Ok::<Seq<Seq<u8>>, Error>(p));
        lemma_join_one(h, data, rest, pos == 0);
        assert forall|k: int| 0 <= k < p.len() implies 2 < (#[trigger] p[k]).len()
            <= cfg.max_payload by {
            if k > 0 {
                assert(p[k] == rest[k - 1]);
            }
        }
    }
}

proof fn lemma_redundant(picture: Seq<u8>)
    ensures
        redundant_header(picture) matches Ok(Some((h, n))) ==> 1 <= h.len() <= 63 && 0 <= n < 8,
{
    reveal(redundant_header);
    lemma_header_end(bits::bits_of_bytes(picture));
}

/// Joining undoes cutting: whatever stream is cut into packets, joining the
/// packets gives the stream back; and every packet keeps to the payload budget
/// and carries data.
pub proof fn depacketizing_inverts_packetizing(s: Seq<u8>, cfg: PacketizeConfig)
    requires
        packets(s, cfg) is Ok,
    ensures
        joined(packets(s, cfg)->Ok_0, true) == Ok::<Seq<u8>, Error>(s),
        forall|k: int|
            0 <= k < packets(s, cfg)->Ok_0.len() ==> 2 < (#[trigger] packets(
                s,
                cfg,
            )->Ok_0[k]).len() <= cfg.max_payload,
{
    lemma_packets_join(s, 0, None, cfg);
    assert(s.skip(0) =~= s);
}

/// A Mode A payload header of the older format: picture type fields of the
/// current picture, and the B-picture fields of a PB-frame.
#[derive(Clone, Copy, Debug, PartialEq, Eq, Structural)]
pub struct Rfc2190ModeA {
    pub pb_frames: bool,
    /// Bits to ignore at the front of the data, below 8.
    pub sbit: u8,
    /// Bits to ignore at the end of the data, below 8.
    pub ebit: u8,
    /// Source format code, below 8.
    pub src: u8,
    pub inter: bool,
    pub umv: bool,
    pub sac: bool,
    pub advanced_prediction: bool,
    /// DBQUANT, below 4.
    pub dbq: u8,
    /// Temporal reference of the B-picture, below 8.
    pub trb: u8,
    /// Temporal reference of the P-picture.
    pub tr: u8,
}

/// The fields fit their widths.
pub open spec fn is_mode_a(h: Rfc2190ModeA) -> bool {
    h.sbit < 8 && h.ebit < 8 && h.src < 8 && h.dbq < 4 && h.trb < 8
}

/// A Mode A payload header on the wire.
pub open spec fn mode_a_bytes(h: Rfc2190ModeA) -> Seq<u8> {
    seq![
        (64 * bits::bit_value(h.pb_frames) + 8 * h.sbit + h.ebit) as u8,
        (32 * h.src + 16 * bits::bit_value(h.inter) + 8 * bits::bit_value(h.umv) + 4
            * bits::bit_value(h.sac) + 2 * bits::bit_value(h.advanced_prediction)) as u8,
        (8 * h.dbq + h.trb) as u8,
        h.tr,
    ]
}

/// What parsing the Mode A payload header at the front of `b` gives; the other
/// modes are not supported.
pub open spec fn parsed_mode_a(b: Seq<u8>) -> Result<Rfc2190ModeA, Error> {
    if b.len() < 4 {
        Err(Error::RtpTruncatedPacket)
    } else if b[0] >= 128 {
        Err(Error::NotImplemented)
    } else {
        Ok(
            Rfc2190ModeA {
                pb_frames: (b[0] / 64) % 2 == 1,
                sbit: ((b[0] / 8) % 8) as u8,
                ebit: (b[0] % 8) as u8,
                src: (b[1] / 32) as u8,
                inter: (b[1] / 16) % 2 == 1,
                umv: (b[1] / 8) % 2 == 1,
                sac: (b[1] / 4) % 2 == 1,
                advanced_prediction: (b[1] / 2) % 2 == 1,
                dbq: ((b[2] / 8) % 4) as u8,
                trb: (b[2] % 8) as u8,
                tr: b[3],
            },
        )
    }
}

fn unit(b: bool) -> (v: u8)
    ensures
        v == bits::bit_value(b),
{
    if b {
        1
    } else {
        0
    }
}

/// Append a Mode A payload header to `out`.
pub fn write_rfc2190_mode_a(out: &mut Vec<u8>, h: &Rfc2190ModeA) -> (res: Result<(), Error>)
    ensures
        if is_mode_a(*h) {
            res is Ok && final(out)@ == old(out)@ + mode_a_bytes(*h)
        } else {
            res == Err::<(), Error>(Error::RtpBadPayloadHeader) && final(out)@ == old(out)@
        },
{
    if h.sbit > 7 || h.ebit > 7 || h.src > 7 || h.dbq > 3 || h.trb > 7 {
        return Err(Error::RtpBadPayloadHeader);
    }
    let ghost before = out@;
    out.push(64 * unit(h.pb_frames) + 8 * h.sbit + h.ebit);
    out.push(
        32 * h.src + 16 * unit(h.inter) + 8 * unit(h.umv) + 4 * unit(h.sac) + 2 * unit(
            h.advanced_prediction,
        ),
    );
    out.push(8 * h.dbq + h.trb);
    out.push(h.tr);
    assert(out@ =~= before + mode_a_bytes(*h));
    Ok(())
}

/// Parse the Mode A payload header at the front of a payload; the offset of the
/// data behind it comes back beside it.
pub fn parse_rfc2190_mode_a(payload: &[u8]) -> (res: Result<(Rfc2190ModeA, usize), Error>)
    ensures
        match parsed_mode_a(payload@) {
            Ok(h) => res == Ok::<(Rfc2190ModeA, usize), Error>((h, 4)),
            Err(e) => res == Err::<(Rfc2190ModeA, usize), Error>(e),
        },
{
    if payload.len() < RFC2190_MODE_A_BYTES {
        return Err(Error::RtpTruncatedPacket);
    }
    if payload[0] >= 128 {
        return Err(Error::NotImplemented);
    }
    Ok(
        (
            Rfc2190ModeA {
                pb_frames: (payload[0] / 64) % 2 == 1,
                sbit: (payload[0] / 8) % 8,
                ebit: payload[0] % 8,
                src: payload[1] / 32,
                inter: (payload[1] / 16) % 2 == 1,
                umv: (payload[1] / 8) % 2 == 1,
                sac: (payload[1] / 4) % 2 == 1,
                advanced_prediction: (payload[1] / 2) % 2 == 1,
                dbq: (payload[2] / 8) % 4,
                trb: payload[2] % 8,
                tr: payload[3],
            },
            RFC2190_MODE_A_BYTES,
        ),
    )
}

/// Parsing a Mode A payload header undoes writing it, whatever data follows.
pub proof fn mode_a_round_trips(h: Rfc2190ModeA, data: Seq<u8>)
    requires
        is_mode_a(h),
    ensures
        parsed_mode_a(mode_a_bytes(h) + data) == Ok::<Rfc2190ModeA, Error>(h),
{
    let m = mode_a_bytes(h);
    let b = m + data;
    assert(b[0] == m[0] && b[1] == m[1] && b[2] == m[2] && b[3] == m[3]);
}

/// The PTYPE code of a source format.
pub open spec fn source_code(f: H263SourceFormat) -> u8 {
    match f {
        H263SourceFormat::SubQcif => 1,
        H263SourceFormat::Qcif => 2,
        H263SourceFormat::Cif => 3,
        H263SourceFormat::Cif4 => 4,
        H263SourceFormat::Cif16 => 5,
        H263SourceFormat::Reserved110 => 6,
    }
}

/// The payload header fields of the picture at the front of some bytes, which
/// must not have an extended type.
#[verifier::opaque]
pub open spec fn picture_fields(picture: Seq<u8>) -> Result<Rfc2190ModeA, Error> {
    let s = bits::bits_of_bytes(picture);
    match picture_header::parsed_picture_layer(s, 0, InheritedExtendedState::fresh()) {
        Err(e) => Err(e),
        Ok(H263PictureLayer::Extended(_)) => Err(Error::NotImplemented),
        Ok(H263PictureLayer::Baseline(h)) => {
            let at: int = if s[48] {
                51
            } else {
                49
            };
            if h.pb_frames && (!bits::has_bits(s, 43, 6) || !bits::has_bits(s, at, 5)) {
                Err(Error::UnexpectedEof)
            } else {
                Ok(
                    Rfc2190ModeA {
                        pb_frames: h.pb_frames,
                        sbit: 0,
                        ebit: 0,
                        src: source_code(h.source_format),
                        inter: h.coding_type == H263PictureCodingType::Inter,
                        umv: h.umv_mode,
                        sac: h.sac_mode,
                        advanced_prediction: h.advanced_prediction,
                        dbq: if h.pb_frames {
                            bits::field(s, at + 3, 2) as u8
                        } else {
                            0
                        },
                        trb: if h.pb_frames {
                            bits::field(s, at, 3) as u8
                        } else {
                            0
                        },
                        tr: if h.pb_frames {
                            h.temporal_reference
                        } else {
                            0
                        },
                    },
                )
            }
        },
    }
}

fn rfc2190_fields_for_picture(picture: &[u8]) -> (res: Result<Rfc2190ModeA, Error>)
    ensures
        res == picture_fields(picture@),
        res matches Ok(h) ==> is_mode_a(h) && h.sbit == 0 && h.ebit == 0,
{
    proof {
        reveal(picture_fields);
        vstd::arithmetic::power2::lemma2_to64();
    }
    let mut r = BitReader::new(picture);
    let header = match parse_picture_layer(&mut r, InheritedExtendedState::default())? {
        H263PictureLayer::Baseline(h) => h,
        H263PictureLayer::Extended(_) => return Err(Error::NotImplemented),
    };
    let src: u8 = match header.source_format {
        H263SourceFormat::SubQcif => 1,
        H263SourceFormat::Qcif => 2,
        H263SourceFormat::Cif => 3,
        H263SourceFormat::Cif4 => 4,
        H263SourceFormat::Cif16 => 5,
        H263SourceFormat::Reserved110 => 6,
    };
    let mut dbq: u8 = 0;
    let mut trb: u8 = 0;
    if header.pb_frames {
        bits::skip_field(&mut r, 5)?;
        if bits::read_flag(&mut r)? {
            bits::skip_field(&mut r, 2)?;
        }
        trb = bits::read_field(&mut r, 3)? as u8;
        dbq = bits::read_field(&mut r, 2)? as u8;
    }
    Ok(
        Rfc2190ModeA {
            pb_frames: header.pb_frames,
            sbit: 0,
            ebit: 0,
            src,
            inter: matches!(header.coding_type, H263PictureCodingType::Inter),
            umv: header.umv_mode,
            sac: header.sac_mode,
            advanced_prediction: header.advanced_prediction,
            dbq,
            trb,
            tr: if header.pb_frames {
                header.temporal_reference
            } else {
                0
            },
        },
    )
}

/// The payload header fields in force for the packet that begins at byte `pos`;
/// `kept` were in force before.
pub open spec fn fields_in_force(s: Seq<u8>, pos: int, kept: Option<Rfc2190ModeA>) -> Result<
    Rfc2190ModeA,
    Error,
> {
    if begins_picture(s, pos) {
        picture_fields(s.subrange(pos, s.len() as int))
    } else {
        match kept {
            Some(h) => Ok(h),
            None => Err(Error::BadPictureStartCode),
        }
    }
}

/// Where the packet that begins at byte `pos` ends in the older format: at the
/// stop if that is in reach, else at the last start code in reach.
pub open spec fn mode_a_cut(s: Seq<u8>, pos: int, budget: int) -> Option<int> {
    let far = reach(s, pos, pos, budget);
    if far == stop_from(s, pos + 1) {
        Some(far)
    } else {
        last_code(s, pos, far)
    }
}

/// The packets of a stream from byte `pos` on in the older format; `kept` are
/// the payload header fields in force.
pub open spec fn mode_a_packets_from(
    s: Seq<u8>,
    pos: int,
    kept: Option<Rfc2190ModeA>,
    budget: int,
) -> Result<Seq<Seq<u8>>, Error>
    decreases s.len() - pos,
{
    if pos >= s.len() {
        Ok(Seq::empty())
    } else {
        match fields_in_force(s, pos, kept) {
            Err(e) => Err(e),
            Ok(h) => match mode_a_cut(s, pos, budget) {
                None => Err(Error::NotImplemented),
                Some(cut) => if cut <= pos || cut > s.len() {
                    Ok(Seq::empty())
                } else {
                    match mode_a_packets_from(s, cut, Some(h), budget) {
                        Err(e) => Err(e),
                        Ok(rest) => Ok(seq![mode_a_bytes(h) + s.subrange(pos, cut)] + rest),
                    }
                },
            },
        }
    }
}

/// What cutting a stream into packets gives in the older format.
pub open spec fn mode_a_packets(s: Seq<u8>, max_payload: int) -> Result<Seq<Seq<u8>>, Error> {
    if max_payload < 5 {
        Err(Error::RtpPayloadTooSmall)
    } else if s.len() > 0 && !is_start_code(s, 0) {
        Err(Error::BadPictureStartCode)
    } else {
        mode_a_packets_from(s, 0, None, max_payload - 4)
    }
}

proof fn lemma_mode_a_cut(s: Seq<u8>, pos: int, budget: int)
    requires
        0 <= pos < s.len(),
        budget >= 1,
    ensures
        pos < reach(s, pos, pos, budget) <= s.len(),
        mode_a_cut(s, pos, budget) matches Some(cut) ==> pos < cut <= s.len() && cut - pos
            <= budget && (cut < s.len() ==> is_start_code(s, cut)),
{
    lemma_stop(s, pos + 1);
    lemma_last_code(s, pos, reach(s, pos, pos, budget));
}

/// Cut a stream, which begins with a start code, into payloads of the older
/// format.
///
/// Every packet begins at a start code, and no packet runs past the next
/// picture or the end of a sequence. A segment that does not fit the budget is
/// refused, and so is a picture with an extended type.
pub fn packetize_stream_rfc2190(stream: &[u8], cfg: PacketizeConfig) -> (res: Result<
    Vec<Vec<u8>>,
    Error,
>)
    ensures
        match mode_a_packets(stream@, cfg.max_payload as int) {
            Ok(p) => res matches Ok(payloads) && contents(payloads@) == p,
            Err(e) => res matches Err(err) && err == e,
        },
{
    if cfg.max_payload < RFC2190_MODE_A_BYTES + 1 {
        return Err(Error::RtpPayloadTooSmall);
    }
    let mut payloads: Vec<Vec<u8>> = Vec::new();
    if stream.len() == 0 {
        assert(contents(payloads@) =~= Seq::empty());
        return Ok(payloads);
    }
    if !is_start_code_at(stream, 0) {
        return Err(Error::BadPictureStartCode);
    }
    let ghost s = stream@;
    let ghost all = mode_a_packets(s, cfg.max_payload as int);
    let budget: usize = cfg.max_payload - RFC2190_MODE_A_BYTES;
    let mut pos: usize = 0;
    let mut kept: Option<Rfc2190ModeA> = None;
    proof {
        assert(contents(payloads@) =~= Seq::empty());
        if let Ok(r) = mode_a_packets_from(s, 0, None, budget as int) {
            assert(Seq::<Seq<u8>>::empty() + r =~= r);
        }
    }
    while pos < stream.len()
        invariant
            s == stream@,
            pos <= s.len(),
            pos < s.len() ==> is_start_code(s, pos as int),
            budget >= 1,
            all == mode_a_packets(s, cfg.max_payload as int),
            all == with_rest(
                contents(payloads@),
                mode_a_packets_from(s, pos as int, kept, budget as int),
            ),
            kept matches Some(h) ==> is_mode_a(h),
        decreases s.len() - pos,
    {
        if start_code_kind(stream, pos) == StartCodeKind::Picture {
            kept = Some(
                rfc2190_fields_for_picture(slice_subrange(stream, pos, stream.len()))?,
            );
        }
        let fields = match kept {
            Some(h) => h,
            None => return Err(Error::BadPictureStartCode),
        };
        proof {
            lemma_mode_a_cut(s, pos as int, budget as int);
        }
        let stop: usize = find_stop(stream, pos + 1);
        let far: usize = if budget < stop - pos {
            pos + budget
        } else {
            stop
        };
        let cut: usize = if far == stop {
            far
        } else {
            match find_last_code(stream, pos, far) {
                Some(b) => b,
                None => return Err(Error::NotImplemented),
            }
        };
        let mut packet: Vec<u8> = Vec::new();
        write_rfc2190_mode_a(&mut packet, &fields)?;
        let ghost head = packet@;
        packet.extend_from_slice(slice_subrange(stream, pos, cut));
        proof {
            assert(head =~= mode_a_bytes(fields));
            assert(packet@ =~= mode_a_bytes(fields) + s.subrange(pos as int, cut as int));
        }
        let ghost done = contents(payloads@);
        let ghost packet_bytes = packet@;
        payloads.push(packet);
        proof {
            assert(contents(payloads@) =~= done + seq![packet_bytes]);
            if let Ok(r) = mode_a_packets_from(s, cut as int, Some(fields), budget as int) {
                assert(done + (seq![packet_bytes] + r) =~= contents(payloads@) + r);
            }
        }
        pos = cut;
    }
    proof {
        assert(contents(payloads@) + Seq::<Seq<u8>>::empty() =~= contents(payloads@));
    }
    Ok(payloads)
}

/// What joining payloads of the older format gives; bit-aligned ones are not
/// supported.
pub open spec fn mode_a_joined(payloads: Seq<Seq<u8>>) -> Result<Seq<u8>, Error>
    decreases payloads.len(),
{
    if payloads.len() == 0 {
        Ok(Seq::empty())
    } else {
        match parsed_mode_a(payloads[0]) {
            Err(e) => Err(e),
            Ok(h) => if h.sbit != 0 || h.ebit != 0 {
                Err(Error::NotImplemented)
            } else {
                match mode_a_joined(payloads.skip(1)) {
                    Err(e) => Err(e),
                    Ok(rest) => Ok(payloads[0].skip(4) + rest),
                }
            },
        }
    }
}

/// Join payloads of the older format, in the order of sending and with none
/// lost, into a stream.
pub fn depacketize_payloads_rfc2190(payloads: &[Vec<u8>]) -> (res: Result<Vec<u8>, Error>)
    ensures
        match mode_a_joined(contents(payloads@)) {
            Ok(s) => res matches Ok(stream) && stream@ == s,
            Err(e) => res matches Err(err) && err == e,
        },
{
    let ghost c = contents(payloads@);
    let ghost all = mode_a_joined(c);
    let mut stream: Vec<u8> = Vec::new();
    let mut k: usize = 0;
    proof {
        assert(c.skip(0) =~= c);
        if let Ok(r) = all {
            assert(stream@ + r =~= r);
        }
    }
    while k < payloads.len()
        invariant
            k <= payloads@.len(),
            c == contents(payloads@),
            all == mode_a_joined(c),
            all == (match mode_a_joined(c.skip(k as int)) {
                Ok(r) => Ok(stream@ + r),
                Err(e) => Err(e),
            }),
        decreases payloads@.len() - k,
    {
        let payload = payloads[k].as_slice();
        let ghost before = stream@;
        proof {
            assert(c.skip(k as int)[0] == payload@);
            assert(c.skip(k as int).skip(1) =~= c.skip(k + 1));
        }
        let (header, offset) = parse_rfc2190_mode_a(payload)?;
        if header.sbit != 0 || header.ebit != 0 {
            return Err(Error::NotImplemented);
        }
        stream.extend_from_slice(slice_subrange(payload, offset, payload.len()));
        proof {
            assert(stream@ =~= before + payload@.skip(offset as int));
            if let Ok(r) = mode_a_joined(c.skip(k + 1)) {
                assert(before + (payload@.skip(4) + r) =~= stream@ + r);
            }
        }
        k = k + 1;
    }
    proof {
        assert(c.skip(k as int) =~= Seq::empty());
        assert(stream@ + Seq::<u8>::empty() =~= stream@);
    }
    Ok(stream)
}

proof fn lemma_picture_fields(picture: Seq<u8>)
    ensures
        picture_fields(picture) matches Ok(h) ==> is_mode_a(h) && h.sbit == 0 && h.ebit == 0,
{
    reveal(picture_fields);
    let s = bits::bits_of_bytes(picture);
    let at: int = if s[48] {
        51
    } else {
        49
    };
    vstd::arithmetic::power2::lemma2_to64();
    bits::lemma_value_bound(s.subrange(at, at + 3));
    bits::lemma_value_bound(s.subrange(at + 3, at + 3 + 2));
}

proof fn lemma_mode_a_join(s: Seq<u8>, pos: int, kept: Option<Rfc2190ModeA>, budget: int)
    requires
        0 <= pos <= s.len(),
        budget >= 1,
        kept matches Some(h) ==> is_mode_a(h) && h.sbit == 0 && h.ebit == 0,
        mode_a_packets_from(s, pos, kept, budget) is Ok,
    ensures
        mode_a_joined(mode_a_packets_from(s, pos, kept, budget)->Ok_0) == Ok::<Seq<u8>, Error>(
            s.skip(pos),
        ),
        forall|k: int|
            0 <= k < mode_a_packets_from(s, pos, kept, budget)->Ok_0.len() ==> 4
                < (#[trigger] mode_a_packets_from(s, pos, kept, budget)->Ok_0[k]).len() <= budget
                + 4,
    decreases s.len() - pos,
{
    let p = mode_a_packets_from(s, pos, kept, budget)->Ok_0;
    if pos >= s.len() {
        assert(s.skip(pos) =~= Seq::empty());
    } else {
        lemma_picture_fields(s.subrange(pos, s.len() as int));
        let h = fields_in_force(s, pos, kept)->Ok_0;
        lemma_mode_a_cut(s, pos, budget);
        let cut = mode_a_cut(s, pos, budget)->0;
        let data = s.subrange(pos, cut);
        mode_a_round_trips(h, data);
        lemma_mode_a_join(s, cut, Some(h), budget);
        let rest = mode_a_packets_from(s, cut, Some(h), budget)->Ok_0;
        assert(p.skip(1) =~= rest);
        assert(p[0].skip(4) =~= data);
        assert(data + s.skip(cut) =~= s.skip(pos));
        assert forall|k: int| 0 <= k < p.len() implies 4 < (#[trigger] p[k]).len() <= budget
            + 4 by {
            if k > 0 {
                assert(p[k] == rest[k - 1]);
            }
        }
    }
}

/// Joining undoes cutting in the older format too, and every packet keeps to
/// the payload budget and carries data.
pub proof fn depacketizing_inverts_packetizing_rfc2190(s: Seq<u8>, max_payload: int)
    requires
        mode_a_packets(s, max_payload) is Ok,
    ensures
        mode_a_joined(mode_a_packets(s, max_payload)->Ok_0) == Ok::<Seq<u8>, Error>(s),
        forall|k: int|
            0 <= k < mode_a_packets(s, max_payload)->Ok_0.len() ==> 4 < (#[trigger] mode_a_packets(
                s,
                max_payload,
            )->Ok_0[k]).len() <= max_payload,
{
    lemma_mode_a_join(s, 0, None, max_payload - 4);
    assert(s.skip(0) =~= s);
}

} // verus!
