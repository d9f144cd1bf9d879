//! Supplemental enhancement information: the function records that a picture
//! header carries in its PSUPP octets.
//!
//! A record starts with an octet whose high nibble is the function type
//! (FTYPE) and whose low nibble counts the parameter octets behind it (DSIZE).
//! FTYPE 15 announces a second such octet of an extended function type.
//! Records of a reserved function type are kept as they are, so that a reader
//! of the stream can step over what it does not know.

use vstd::prelude::*;
use vstd::string::StringExecFns;

verus! {

/// One supplemental enhancement information record.
#[derive(Debug, PartialEq, Eq)]
pub enum Sei {
    /// FTYPE 1: nothing, in order to break up a start code.
    DoNothing,
    /// FTYPE 2: freeze the whole displayed picture.
    FullPictureFreezeRequest,
    /// FTYPE 3: freeze a rectangle, in units of 8 pixels.
    PartialPictureFreezeRequest { x: u8, y: u8, width: u8, height: u8 },
    /// FTYPE 4: freeze a rectangle of the displayed picture to a resized
    /// rectangle of the decoded one, in units of 8 pixels.
    ResizingPartialPictureFreezeRequest { displayed: (u8, u8, u8, u8), decoded: (u8, u8, u8, u8) },
    /// FTYPE 5: release a frozen rectangle.
    PartialPictureFreezeReleaseRequest { x: u8, y: u8, width: u8, height: u8 },
    /// FTYPE 6: the picture is a still image for outside use.
    FullPictureSnapshotTag { id: u32 },
    /// FTYPE 7: a rectangle of the picture is a still image for outside use.
    PartialPictureSnapshotTag { id: u32, x: u8, y: u8, width: u8, height: u8 },
    /// FTYPE 8: a section of video starts.
    VideoTimeSegmentStartTag { id: u32 },
    /// FTYPE 9: a section of video ends.
    VideoTimeSegmentEndTag { id: u32 },
    /// FTYPE 10: a progressive refinement starts.
    ProgressiveRefinementSegmentStartTag { id: u32 },
    /// FTYPE 11: a progressive refinement ends.
    ProgressiveRefinementSegmentEndTag { id: u32 },
    /// FTYPE 12: chroma keying.
    ChromaKeyingInformation { payload: Vec<u8> },
    /// FTYPE 15: an extended function type with its own size.
    ExtendedFunctionType { ext_ftype: u8, ext_dsize: u8, payload: Vec<u8> },
    /// Any reserved function type.
    Unknown { ftype: u8, payload: Vec<u8> },
}

/// A record with its octets as sequences.
pub enum SeiView {
    DoNothing,
    FullPictureFreezeRequest,
    PartialPictureFreezeRequest { x: u8, y: u8, width: u8, height: u8 },
    ResizingPartialPictureFreezeRequest { displayed: (u8, u8, u8, u8), decoded: (u8, u8, u8, u8) },
    PartialPictureFreezeReleaseRequest { x: u8, y: u8, width: u8, height: u8 },
    FullPictureSnapshotTag { id: u32 },
    PartialPictureSnapshotTag { id: u32, x: u8, y: u8, width: u8, height: u8 },
    VideoTimeSegmentStartTag { id: u32 },
    VideoTimeSegmentEndTag { id: u32 },
    ProgressiveRefinementSegmentStartTag { id: u32 },
    ProgressiveRefinementSegmentEndTag { id: u32 },
    ChromaKeyingInformation { payload: Seq<u8> },
    ExtendedFunctionType { ext_ftype: u8, ext_dsize: u8, payload: Seq<u8> },
    Unknown { ftype: u8, payload: Seq<u8> },
}

impl View for Sei {
    type V = SeiView;

    open spec fn view(&self) -> SeiView {
        match *self {
            Sei::DoNothing => SeiView::DoNothing,
            Sei::FullPictureFreezeRequest => SeiView::FullPictureFreezeRequest,
            Sei::PartialPictureFreezeRequest { x, y, width, height } => {
                SeiView::PartialPictureFreezeRequest { x, y, width, height }
            },
            Sei::ResizingPartialPictureFreezeRequest { displayed, decoded } => {
                SeiView::ResizingPartialPictureFreezeRequest { displayed, decoded }
            },
            Sei::PartialPictureFreezeReleaseRequest { x, y, width, height } => {
                SeiView::PartialPictureFreezeReleaseRequest { x, y, width, height }
            },
            Sei::FullPictureSnapshotTag { id } => SeiView::FullPictureSnapshotTag { id },
            Sei::PartialPictureSnapshotTag { id, x, y, width, height } => {
                SeiView::PartialPictureSnapshotTag { id, x, y, width, height }
            },
            Sei::VideoTimeSegmentStartTag { id } => SeiView::VideoTimeSegmentStartTag { id },
            Sei::VideoTimeSegmentEndTag { id } => SeiView::VideoTimeSegmentEndTag { id },
            Sei::ProgressiveRefinementSegmentStartTag { id } => {
                SeiView::ProgressiveRefinementSegmentStartTag { id }
            },
            Sei::ProgressiveRefinementSegmentEndTag { id } => {
                SeiView::ProgressiveRefinementSegmentEndTag { id }
            },
            Sei::ChromaKeyingInformation { payload } => {
                SeiView::ChromaKeyingInformation { payload: payload@ }
            },
            Sei::ExtendedFunctionType { ext_ftype, ext_dsize, payload } => {
                SeiView::ExtendedFunctionType { ext_ftype, ext_dsize, payload: payload@ }
            },
            Sei::Unknown { ftype, payload } => SeiView::Unknown { ftype, payload: payload@ },
        }
    }
}

impl Clone for Sei {
    fn clone(&self) -> (r: Sei)
        ensures
            r@ == self@,
    {
        match self {
            Sei::DoNothing => Sei::DoNothing,
            Sei::FullPictureFreezeRequest => Sei::FullPictureFreezeRequest,
            Sei::PartialPictureFreezeRequest { x, y, width, height } => {
                Sei::PartialPictureFreezeRequest { x: *x, y: *y, width: *width, height: *height }
            },
            Sei::ResizingPartialPictureFreezeRequest { displayed, decoded } => {
                Sei::ResizingPartialPictureFreezeRequest { displayed: *displayed, decoded: *decoded }
            },
            Sei::PartialPictureFreezeReleaseRequest { x, y, width, height } => {
                Sei::PartialPictureFreezeReleaseRequest {
                    x: *x,
                    y: *y,
                    width: *width,
                    height: *height,
                }
            },
            Sei::FullPictureSnapshotTag { id } => Sei::FullPictureSnapshotTag { id: *id },
            Sei::PartialPictureSnapshotTag { id, x, y, width, height } => {
                Sei::PartialPictureSnapshotTag {
                    id: *id,
                    x: *x,
                    y: *y,
                    width: *width,
                    height: *height,
                }
            },
            Sei::VideoTimeSegmentStartTag { id } => Sei::VideoTimeSegmentStartTag { id: *id },
            Sei::VideoTimeSegmentEndTag { id } => Sei::VideoTimeSegmentEndTag { id: *id },
            Sei::ProgressiveRefinementSegmentStartTag { id } => {
                Sei::ProgressiveRefinementSegmentStartTag { id: *id }
            },
            Sei::ProgressiveRefinementSegmentEndTag { id } => {
                Sei::ProgressiveRefinementSegmentEndTag { id: *id }
            },
            Sei::ChromaKeyingInformation { payload } => {
                Sei::ChromaKeyingInformation { payload: copied(payload) }
            },
            Sei::ExtendedFunctionType { ext_ftype, ext_dsize, payload } => {
                Sei::ExtendedFunctionType {
                    ext_ftype: *ext_ftype,
                    ext_dsize: *ext_dsize,
                    payload: copied(payload),
                }
            },
            Sei::Unknown { ftype, payload } => {
                Sei::Unknown { ftype: *ftype, payload: copied(payload) }
            },
        }
    }
}

/// A copy of some octets.
fn copied(payload: &Vec<u8>) -> (v: Vec<u8>)
    ensures
        v@ == payload@,
{
    octets(payload.as_slice(), 0, payload.len())
}

/// Why a PSUPP stream is malformed.
#[derive(Clone, Copy, Debug, PartialEq, Eq, Structural)]
pub enum SeiError {
    /// A record's parameters do not end within the stream.
    PastEnd { ftype: u8, dsize: u8, remaining: usize },
    /// A function type came with a size that is not its own.
    UnexpectedSize { ftype: u8, dsize: u8 },
    /// Chroma keying takes one to nine octets.
    ChromaKeySize { dsize: u8 },
    /// The stream ends where an extended function type should stand.
    ExtendedAtEnd,
    /// An extended record's parameters do not end within the stream.
    ExtendedPastEnd { ext_ftype: u8, ext_dsize: u8 },
}

/// The decimal digits of `n`.
pub open spec fn decimal(n: nat) -> Seq<char>
    decreases n,
{
    if n < 10 {
        seq![digit(n)]
    } else {
        decimal(n / 10).push(digit(n % 10))
    }
}

/// The character of a decimal digit.
pub open spec fn digit(n: nat) -> char {
    if n == 0 {
        '0'
    } else if n == 1 {
        '1'
    } else if n == 2 {
        '2'
    } else if n == 3 {
        '3'
    } else if n == 4 {
        '4'
    } else if n == 5 {
        '5'
    } else if n == 6 {
        '6'
    } else if n == 7 {
        '7'
    } else if n == 8 {
        '8'
    } else {
        '9'
    }
}

/// The decimal digits of `n` as a string.
fn decimal_string(n: usize) -> (s: String)
    ensures
        s@ == decimal(n as nat),
    decreases n,
{
    let mut out: String = if n < 10 {
        String::new()
    } else {
        decimal_string(n / 10)
    };
    let last: usize = n % 10;
    let text: &str = match last {
        0 => "0",
        1 => "1",
        2 => "2",
        3 => "3",
        4 => "4",
        5 => "5",
        6 => "6",
        7 => "7",
        8 => "8",
        _ => "9",
    };
    proof {
        reveal_strlit("0");
        reveal_strlit("1");
        reveal_strlit("2");
        reveal_strlit("3");
        reveal_strlit("4");
        reveal_strlit("5");
        reveal_strlit("6");
        reveal_strlit("7");
        reveal_strlit("8");
        reveal_strlit("9");
        assert(text@ =~= seq![digit(last as nat)]);
    }
    out.append(text);
    assert(out@ =~= decimal(n as nat));
    out
}

impl SeiError {
    /// The error in words.
    pub open spec fn text(self) -> Seq<char> {
        match self {
            SeiError::PastEnd { ftype, dsize, remaining } => {
                "h263 Annex L PSUPP: FTYPE="@ + decimal(ftype as nat) + " DSIZE="@ + decimal(
                    dsize as nat,
                ) + " extends past stream end ("@ + decimal(remaining as nat)
                    + " bytes remaining)"@
            },
            SeiError::UnexpectedSize { ftype, dsize } => {
                "h263 Annex L PSUPP FTYPE="@ + decimal(ftype as nat) + ": DSIZE="@ + decimal(
                    dsize as nat,
                ) + " (expected one of ["@ + decimal(
                    match fixed_size(ftype as int) {
                        Some(n) => n as nat,
                        None => 0,
                    },
                ) + "])"@
            },
            SeiError::ChromaKeySize { dsize } => {
                "h263 Annex L PSUPP: CKIF DSIZE must be 1..=9 (got "@ + decimal(dsize as nat) + ")"@
            },
            SeiError::ExtendedAtEnd => {
                "h263 Annex L PSUPP: extended-FTYPE indicator at end of stream"@
            },
            SeiError::ExtendedPastEnd { ext_ftype, ext_dsize } => {
                "h263 Annex L PSUPP: extended FTYPE="@ + decimal(ext_ftype as nat) + " DSIZE="@
                    + decimal(ext_dsize as nat) + " extends past stream end"@
            },
        }
    }

    /// Say in words what is wrong with the stream.
    pub fn message(&self) -> (s: String)
        ensures
            s@ == self.text(),
    {
        match *self {
            SeiError::PastEnd { ftype, dsize, remaining } => {
                String::from_str("h263 Annex L PSUPP: FTYPE=").concat(
                    decimal_string(ftype as usize).as_str(),
                ).concat(" DSIZE=").concat(decimal_string(dsize as usize).as_str()).concat(
                    " extends past stream end (",
                ).concat(decimal_string(remaining).as_str()).concat(" bytes remaining)")
            },
            SeiError::UnexpectedSize { ftype, dsize } => {
                let wanted: usize = match own_size(ftype) {
                    Some(n) => n,
                    None => 0,
                };
                String::from_str("h263 Annex L PSUPP FTYPE=").concat(
                    decimal_string(ftype as usize).as_str(),
                ).concat(": DSIZE=").concat(decimal_string(dsize as usize).as_str()).concat(
                    " (expected one of [",
                ).concat(decimal_string(wanted).as_str()).concat("])")
            },
            SeiError::ChromaKeySize { dsize } => {
                String::from_str("h263 Annex L PSUPP: CKIF DSIZE must be 1..=9 (got ").concat(
                    decimal_string(dsize as usize).as_str(),
                ).concat(")")
            },
            SeiError::ExtendedAtEnd => {
                String::from_str("h263 Annex L PSUPP: extended-FTYPE indicator at end of stream")
            },
            SeiError::ExtendedPastEnd { ext_ftype, ext_dsize } => {
                String::from_str("h263 Annex L PSUPP: extended FTYPE=").concat(
                    decimal_string(ext_ftype as usize).as_str(),
                ).concat(" DSIZE=").concat(decimal_string(ext_dsize as usize).as_str()).concat(
                    " extends past stream end",
                )
            },
        }
    }
}

/// The function type of the record at the head of `s`.
pub open spec fn ftype_of(s: Seq<u8>) -> int {
    s[0] as int / 16
}

/// The parameter count of the record at the head of `s`.
pub open spec fn dsize_of(s: Seq<u8>) -> int {
    s[0] as int % 16
}

/// The one parameter count that a function type allows, if there is just one.
pub open spec fn fixed_size(ftype: int) -> Option<int> {
    if ftype == 1 || ftype == 2 || ftype == 15 {
        Some(0)
    } else if ftype == 3 || ftype == 5 || ftype == 6 || 8 <= ftype <= 11 {
        Some(4)
    } else if ftype == 4 || ftype == 7 {
        Some(8)
    } else {
        None
    }
}

/// Four octets as a number, most significant octet first.
pub open spec fn big_endian(p: Seq<u8>) -> int {
    p[0] * 0x100_0000 + p[1] * 0x1_0000 + p[2] * 0x100 + p[3]
}

/// What is wrong with the record at the head of `s`, if anything.
pub open spec fn record_error(s: Seq<u8>) -> Option<SeiError> {
    let f = ftype_of(s);
    let d = dsize_of(s);
    if 1 + d > s.len() {
        Some(
            SeiError::PastEnd {
                ftype: f as u8,
                dsize: d as u8,
                remaining: (s.len() - 1) as usize,
            },
        )
    } else if fixed_size(f) matches Some(n) && n != d {
        Some(SeiError::UnexpectedSize { ftype: f as u8, dsize: d as u8 })
    } else if f == 12 && !(1 <= d <= 9) {
        Some(SeiError::ChromaKeySize { dsize: d as u8 })
    } else if f == 15 && s.len() < 2 {
        Some(SeiError::ExtendedAtEnd)
    } else if f == 15 && 2 + dsize_of(s.skip(1)) > s.len() {
        Some(
            SeiError::ExtendedPastEnd {
                ext_ftype: ftype_of(s.skip(1)) as u8,
                ext_dsize: dsize_of(s.skip(1)) as u8,
            },
        )
    } else {
        None
    }
}

/// The number of octets of the record at the head of `s`.
pub open spec fn record_len(s: Seq<u8>) -> int {
    if ftype_of(s) == 15 {
        2 + dsize_of(s.skip(1))
    } else {
        1 + dsize_of(s)
    }
}

/// The record at the head of `s`.
pub open spec fn record_of(s: Seq<u8>) -> SeiView {
    let f = ftype_of(s);
    let p = s.subrange(1, 1 + dsize_of(s));
    if f == 1 {
        SeiView::DoNothing
    } else if f == 2 {
        SeiView::FullPictureFreezeRequest
    } else if f == 3 {
        SeiView::PartialPictureFreezeRequest { x: p[0], y: p[1], width: p[2], height: p[3] }
    } else if f == 4 {
        SeiView::ResizingPartialPictureFreezeRequest {
            displayed: (p[0], p[1], p[2], p[3]),
            decoded: (p[4], p[5], p[6], p[7]),
        }
    } else if f == 5 {
        SeiView::PartialPictureFreezeReleaseRequest { x: p[0], y: p[1], width: p[2], height: p[3] }
    } else if f == 6 {
        SeiView::FullPictureSnapshotTag { id: big_endian(p) as u32 }
    } else if f == 7 {
        SeiView::PartialPictureSnapshotTag {
            id: big_endian(p) as u32,
            x: p[4],
            y: p[5],
            width: p[6],
            height: p[7],
        }
    } else if f == 8 {
        SeiView::VideoTimeSegmentStartTag { id: big_endian(p) as u32 }
    } else if f == 9 {
        SeiView::VideoTimeSegmentEndTag { id: big_endian(p) as u32 }
    } else if f == 10 {
        SeiView::ProgressiveRefinementSegmentStartTag { id: big_endian(p) as u32 }
    } else if f == 11 {
        SeiView::ProgressiveRefinementSegmentEndTag { id: big_endian(p) as u32 }
    } else if f == 12 {
        SeiView::ChromaKeyingInformation { payload: p }
    } else if f == 15 {
        SeiView::ExtendedFunctionType {
            ext_ftype: ftype_of(s.skip(1)) as u8,
            ext_dsize: dsize_of(s.skip(1)) as u8,
            payload: s.subrange(2, 2 + dsize_of(s.skip(1))),
        }
    } else {
        SeiView::Unknown { ftype: f as u8, payload: p }
    }
}

/// The records of a stream, in order, or what is wrong with the first
/// malformed one.
pub open spec fn parsed_stream(s: Seq<u8>) -> Result<Seq<SeiView>, SeiError>
    decreases s.len(),
{
    if s.len() == 0 {
        Ok(Seq::empty())
    } else {
        match record_error(s) {
            Some(e) => Err(e),
            None => match parsed_stream(s.skip(record_len(s))) {
                Ok(rest) => Ok(seq![record_of(s)] + rest),
                Err(e) => Err(e),
            },
        }
    }
}

/// The views of a list of records.
pub open spec fn views(v: Seq<Sei>) -> Seq<SeiView> {
    v.map_values(|r: Sei| r@)
}

/// The one parameter count that a function type allows, if there is just one.
fn own_size(ftype: u8) -> (n: Option<usize>)
    ensures
        n is Some == fixed_size(ftype as int) is Some,
        n matches Some(k) ==> fixed_size(ftype as int) == Some(k as int),
{
    match ftype {
        1 | 2 | 15 => Some(0),
        3 | 5 | 6 | 8 | 9 | 10 | 11 => Some(4),
        4 | 7 => Some(8),
        _ => None,
    }
}

/// Four octets of `bytes`, from octet `at` on, as a number.
fn u32_be(bytes: &[u8], at: usize) -> (v: u32)
    requires
        at + 4 <= bytes@.len(),
    ensures
        v == big_endian(bytes@.subrange(at as int, at + 4)),
{
    bytes[at] as u32 * 0x100_0000 + bytes[at + 1] as u32 * 0x1_0000 + bytes[at + 2] as u32 * 0x100
        + bytes[at + 3] as u32
}

/// A copy of `n` octets of `bytes`, from octet `at` on.
fn octets(bytes: &[u8], at: usize, n: usize) -> (v: Vec<u8>)
    requires
        at + n <= bytes@.len(),
    ensures
        v@ == bytes@.subrange(at as int, at + n),
{
    assert(bytes.len() == bytes@.len());
    vstd::slice::slice_to_vec(vstd::slice::slice_subrange(bytes, at, at + n))
}

/// Fail unless a function type came with the size that is its own.
fn expect_dsize(ftype: u8, got: usize) -> (res: Result<(), SeiError>)
    requires
        got < 16,
    ensures
        res == (if (fixed_size(ftype as int) matches Some(n) && n != got) {
            Err(SeiError::UnexpectedSize { ftype, dsize: got as u8 })
        } else {
            Ok(())
        }),
{
    match own_size(ftype) {
        Some(n) => {
            if n != got {
                return Err(SeiError::UnexpectedSize { ftype, dsize: got as u8 });
            }
            Ok(())
        },
        None => Ok(()),
    }
}

/// Read the record that starts at octet `start`, and say where the next one
/// starts.
#[verifier::spinoff_prover]
fn parse_record(bytes: &[u8], start: usize) -> (res: Result<(Sei, usize), SeiError>)
    requires
        start < bytes@.len(),
    ensures
        res is Ok <==> record_error(bytes@.skip(start as int)) is None,
        res matches Ok((rec, next)) ==> rec@ == record_of(bytes@.skip(start as int)) && next
            == start + record_len(bytes@.skip(start as int)) && start < next <= bytes@.len(),
        res matches Err(e) ==> record_error(bytes@.skip(start as int)) == Some(e),
{
    let ghost s = bytes@.skip(start as int);
    assert(bytes.len() == bytes@.len());
    let hdr: u8 = bytes[start];
    assert(hdr == s[0]);
    let mut p: usize = start + 1;
    let ftype: u8 = hdr / 16;
    let dsize: usize = (hdr % 16) as usize;
    if dsize > bytes.len() - p {
        return Err(
            SeiError::PastEnd { ftype, dsize: dsize as u8, remaining: bytes.len() - p },
        );
    }
    let at: usize = p;
    p = p + dsize;
    let ghost payload = s.subrange(1, 1 + dsize);
    assert(forall|i: int| 0 <= i < dsize ==> payload[i] == #[trigger] bytes@[at + i]);
    match expect_dsize(ftype, dsize) {
        Ok(()) => {},
        Err(e) => {
            return Err(e);
        },
    }
    assert(dsize >= 4 ==> bytes@.subrange(at as int, at + 4) =~= payload.subrange(0, 4));
    let rec: Sei = match ftype {
        1 => Sei::DoNothing,
        2 => Sei::FullPictureFreezeRequest,
        3 => Sei::PartialPictureFreezeRequest {
            x: bytes[at],
            y: bytes[at + 1],
            width: bytes[at + 2],
            height: bytes[at + 3],
        },
        4 => Sei::ResizingPartialPictureFreezeRequest {
            displayed: (bytes[at], bytes[at + 1], bytes[at + 2], bytes[at + 3]),
            decoded: (bytes[at + 4], bytes[at + 5], bytes[at + 6], bytes[at + 7]),
        },
        5 => Sei::PartialPictureFreezeReleaseRequest {
            x: bytes[at],
            y: bytes[at + 1],
            width: bytes[at + 2],
            height: bytes[at + 3],
        },
        6 => Sei::FullPictureSnapshotTag { id: u32_be(bytes, at) },
        7 => Sei::PartialPictureSnapshotTag {
            id: u32_be(bytes, at),
            x: bytes[at + 4],
            y: bytes[at + 5],
            width: bytes[at + 6],
            height: bytes[at + 7],
        },
        8 => Sei::VideoTimeSegmentStartTag { id: u32_be(bytes, at) },
        9 => Sei::VideoTimeSegmentEndTag { id: u32_be(bytes, at) },
        10 => Sei::ProgressiveRefinementSegmentStartTag { id: u32_be(bytes, at) },
        11 => Sei::ProgressiveRefinementSegmentEndTag { id: u32_be(bytes, at) },
        12 => {
            if dsize < 1 || dsize > 9 {
                return Err(SeiError::ChromaKeySize { dsize: dsize as u8 });
            }
            let payload: Vec<u8> = octets(bytes, at, dsize);
            assert(payload@ =~= s.subrange(1, 1 + dsize));
            Sei::ChromaKeyingInformation { payload }
        },
        15 => {
            if p >= bytes.len() {
                return Err(SeiError::ExtendedAtEnd);
            }
            let ext: u8 = bytes[p];
            assert(ext == s.skip(1)[0]);
            p = p + 1;
            let ext_ftype: u8 = ext / 16;
            let ext_dsize: usize = (ext % 16) as usize;
            if ext_dsize > bytes.len() - p {
                return Err(
                    SeiError::ExtendedPastEnd { ext_ftype, ext_dsize: ext_dsize as u8 },
                );
            }
            let payload: Vec<u8> = octets(bytes, p, ext_dsize);
            assert(payload@ =~= s.subrange(2, 2 + ext_dsize));
            p = p + ext_dsize;
            Sei::ExtendedFunctionType { ext_ftype, ext_dsize: ext_dsize as u8, payload }
        },
        _ => {
            let payload: Vec<u8> = octets(bytes, at, dsize);
            assert(payload@ =~= s.subrange(1, 1 + dsize));
            Sei::Unknown { ftype, payload }
        },
    };
    Ok((rec, p))
}

/// Parse a picture's PSUPP octets into records, in stream order.
///
/// A record whose parameters the stream cuts off, or whose size does not suit
/// its function type, is an error; a complete record of a reserved type is not.
pub fn parse_psupp_stream(bytes: &[u8]) -> (res: Result<Vec<Sei>, SeiError>)
    ensures
        res is Ok <==> parsed_stream(bytes@) is Ok,
        res matches Ok(v) ==> parsed_stream(bytes@) == Ok::<_, SeiError>(views(v@)),
        res matches Err(e) ==> parsed_stream(bytes@) == Err::<Seq<SeiView>, _>(e),
{
    let mut out: Vec<Sei> = Vec::new();
    let mut p: usize = 0;
    assert(bytes@.skip(0) =~= bytes@);
    assert(views(out@) =~= Seq::<SeiView>::empty());
    proof {
        lemma_behind_nothing(parsed_stream(bytes@));
    }
    while p < bytes.len()
        invariant
            p <= bytes@.len(),
            parsed_stream(bytes@) == behind(views(out@), parsed_stream(bytes@.skip(p as int))),
        decreases bytes@.len() - p,
    {
        let ghost s = bytes@.skip(p as int);
        match parse_record(bytes, p) {
            Ok((rec, next)) => {
                let ghost before = out@;
                out.push(rec);
                proof {
                    assert(bytes@.skip(next as int) =~= s.skip(record_len(s)));
                    assert(views(out@) =~= views(before).push(rec@));
                    lemma_behind_step(
                        views(before),
                        rec@,
                        parsed_stream(bytes@.skip(next as int)),
                    );
                }
                p = next;
            },
            Err(e) => {
                return Err(e);
            },
        }
    }
    proof {
        assert(bytes@.skip(p as int).len() == 0);
        assert(views(out@) + Seq::<SeiView>::empty() =~= views(out@));
    }
    Ok(out)
}

/// A parse result with records put in front.
spec fn behind(front: Seq<SeiView>, r: Result<Seq<SeiView>, SeiError>) -> Result<
    Seq<SeiView>,
    SeiError,
> {
    match r {
        Ok(rest) => Ok(front + rest),
        Err(e) => Err(e),
    }
}

proof fn lemma_behind_nothing(r: Result<Seq<SeiView>, SeiError>)
    ensures
        behind(Seq::empty(), r) == r,
{
    if let Ok(rest) = r {
        assert(Seq::<SeiView>::empty() + rest =~= rest);
    }
}

proof fn lemma_behind_step(front: Seq<SeiView>, rec: SeiView, r: Result<Seq<SeiView>, SeiError>)
    ensures
        behind(front, behind(seq![rec], r)) == behind(front.push(rec), r),
{
    if let Ok(rest) = r {
        assert(front + (seq![rec] + rest) =~= front.push(rec) + rest);
    }
}

/// The octet that holds two nibbles.
pub open spec fn nibbles(high: int, low: int) -> u8 {
    (16 * high + low) as u8
}

/// The four octets of a number, most significant octet first.
pub open spec fn octets_of(v: u32) -> Seq<u8> {
    seq![
        (v as int / 0x100_0000) as u8,
        (v as int / 0x1_0000 % 0x100) as u8,
        (v as int / 0x100 % 0x100) as u8,
        (v as int % 0x100) as u8,
    ]
}

/// The octets of a record.
pub open spec fn wire(r: SeiView) -> Seq<u8> {
    match r {
        SeiView::DoNothing => seq![nibbles(1, 0)],
        SeiView::FullPictureFreezeRequest => seq![nibbles(2, 0)],
        SeiView::PartialPictureFreezeRequest { x, y, width, height } => {
            seq![nibbles(3, 4), x, y, width, height]
        },
        SeiView::ResizingPartialPictureFreezeRequest { displayed, decoded } => {
            seq![
                nibbles(4, 8),
                displayed.0,
                displayed.1,
                displayed.2,
                displayed.3,
                decoded.0,
                decoded.1,
                decoded.2,
                decoded.3,
            ]
        },
        SeiView::PartialPictureFreezeReleaseRequest { x, y, width, height } => {
            seq![nibbles(5, 4), x, y, width, height]
        },
        SeiView::FullPictureSnapshotTag { id } => seq![nibbles(6, 4)] + octets_of(id),
        SeiView::PartialPictureSnapshotTag { id, x, y, width, height } => {
            seq![nibbles(7, 8)] + octets_of(id) + seq![x, y, width, height]
        },
        SeiView::VideoTimeSegmentStartTag { id } => seq![nibbles(8, 4)] + octets_of(id),
        SeiView::VideoTimeSegmentEndTag { id } => seq![nibbles(9, 4)] + octets_of(id),
        SeiView::ProgressiveRefinementSegmentStartTag { id } => {
            seq![nibbles(10, 4)] + octets_of(id)
        },
        SeiView::ProgressiveRefinementSegmentEndTag { id } => {
            seq![nibbles(11, 4)] + octets_of(id)
        },
        SeiView::ChromaKeyingInformation { payload } => {
            seq![nibbles(12, payload.len() as int)] + payload
        },
        SeiView::ExtendedFunctionType { ext_ftype, ext_dsize, payload } => {
            seq![nibbles(15, 0), nibbles(ext_ftype as int, ext_dsize as int)] + payload
        },
        SeiView::Unknown { ftype, payload } => {
            seq![nibbles(ftype as int, payload.len() as int)] + payload
        },
    }
}

/// A record that a stream can hold: what it counts in nibbles fits them, and
/// an unknown record has a reserved function type.
pub open spec fn storable(r: SeiView) -> bool {
    match r {
        SeiView::ChromaKeyingInformation { payload } => 1 <= payload.len() <= 9,
        SeiView::ExtendedFunctionType { ext_ftype, ext_dsize, payload } => {
            ext_ftype < 16 && ext_dsize < 16 && payload.len() == ext_dsize
        },
        SeiView::Unknown { ftype, payload } => {
            (ftype == 0 || ftype == 13 || ftype == 14) && payload.len() < 16
        },
        _ => true,
    }
}

/// The octets of a list of records.
pub open spec fn wire_all(records: Seq<SeiView>) -> Seq<u8>
    decreases records.len(),
{
    if records.len() == 0 {
        Seq::empty()
    } else {
        wire(records[0]) + wire_all(records.skip(1))
    }
}

/// A number survives being written as four octets.
#[verifier::spinoff_prover]
proof fn lemma_octets_of(v: u32)
    ensures
        octets_of(v).len() == 4,
        big_endian(octets_of(v)) == v,
{
}

/// Four octets survive being read as a number.
#[verifier::spinoff_prover]
proof fn lemma_big_endian(p: Seq<u8>)
    requires
        p.len() >= 4,
    ensures
        0 <= big_endian(p) <= u32::MAX,
        octets_of(big_endian(p) as u32) == p.subrange(0, 4),
{
    let v = big_endian(p);
    assert(v / 0x100_0000 == p[0]);
    assert(v / 0x1_0000 == p[0] * 0x100 + p[1]);
    assert(v / 0x100 == p[0] * 0x1_0000 + p[1] * 0x100 + p[2]);
    assert(octets_of(v as u32) =~= p.subrange(0, 4));
}

/// A storable record in front of any octets is read back as it is, and as
/// nothing more.
#[verifier::spinoff_prover]
pub proof fn record_round_trips(r: SeiView, tail: Seq<u8>)
    requires
        storable(r),
    ensures
        record_error(wire(r) + tail) is None,
        record_of(wire(r) + tail) == r,
        record_len(wire(r) + tail) == wire(r).len(),
{
    let s = wire(r) + tail;
    let w = wire(r);
    assert(forall|i: int| 0 <= i < w.len() ==> s[i] == #[trigger] w[i]);
    assert(s[0] == w[0]);
    let p = s.subrange(1, 1 + dsize_of(s));
    match r {
        SeiView::DoNothing | SeiView::FullPictureFreezeRequest => {},
        SeiView::PartialPictureFreezeRequest { .. } | SeiView::PartialPictureFreezeReleaseRequest {
            ..
        } => {
            assert(p =~= w.subrange(1, 5));
        },
        SeiView::ResizingPartialPictureFreezeRequest { .. } => {
            assert(p =~= w.subrange(1, 9));
        },
        SeiView::FullPictureSnapshotTag { id } | SeiView::VideoTimeSegmentStartTag { id }
        | SeiView::VideoTimeSegmentEndTag { id }
        | SeiView::ProgressiveRefinementSegmentStartTag { id }
        | SeiView::ProgressiveRefinementSegmentEndTag { id } => {
            lemma_octets_of(id);
            assert(p =~= octets_of(id));
        },
        SeiView::PartialPictureSnapshotTag { id, x, y, width, height } => {
            lemma_octets_of(id);
            assert(p =~= octets_of(id) + seq![x, y, width, height]);
        },
        SeiView::ChromaKeyingInformation { payload } => {
            assert(p =~= payload);
        },
        SeiView::ExtendedFunctionType { ext_ftype, ext_dsize, payload } => {
            assert(s.skip(1)[0] == w[1]);
            assert(s.subrange(2, 2 + ext_dsize) =~= payload);
        },
        SeiView::Unknown { ftype, payload } => {
            assert(p =~= payload);
        },
    }
}

/// The octets of storable records are parsed back into those records.
pub proof fn stream_round_trips(records: Seq<SeiView>)
    requires
        forall|i: int| 0 <= i < records.len() ==> storable(#[trigger] records[i]),
    ensures
        parsed_stream(wire_all(records)) == Ok::<_, SeiError>(records),
    decreases records.len(),
{
    let s = wire_all(records);
    if records.len() == 0 {
        assert(records =~= Seq::<SeiView>::empty());
    } else {
        let tail = wire_all(records.skip(1));
        record_round_trips(records[0], tail);
        assert forall|i: int| 0 <= i < records.skip(1).len() implies storable(
            #[trigger] records.skip(1)[i],
        ) by {
            assert(records.skip(1)[i] == records[i + 1]);
        }
        stream_round_trips(records.skip(1));
        assert(s.skip(record_len(s)) =~= tail);
        assert(seq![records[0]] + records.skip(1) =~= records);
        assert(wire(records[0]).len() > 0);
    }
}

/// The record that is read at the head of a stream is storable, and its octets
/// are the ones that were read.
#[verifier::spinoff_prover]
pub proof fn record_accounts_for_its_octets(s: Seq<u8>)
    requires
        s.len() > 0,
        record_error(s) is None,
    ensures
        storable(record_of(s)),
        wire(record_of(s)) == s.subrange(0, record_len(s)),
{
    let p = s.subrange(1, 1 + dsize_of(s));
    let f = ftype_of(s);
    let w = s.subrange(0, record_len(s));
    assert(nibbles(f, dsize_of(s)) == s[0]);
    if p.len() >= 4 {
        lemma_big_endian(p);
    }
    if f == 15 {
        let t = s.skip(1);
        assert(nibbles(ftype_of(t), dsize_of(t)) == s[1]);
        let payload = s.subrange(2, 2 + dsize_of(t));
        assert(wire(record_of(s)) =~= seq![s[0], s[1]] + payload);
        assert(w =~= seq![s[0], s[1]] + payload);
    } else {
        assert(w =~= seq![s[0]] + p);
        if f == 3 || f == 5 {
            assert(p =~= seq![p[0], p[1], p[2], p[3]]);
            assert(wire(record_of(s)) =~= seq![s[0]] + p);
        } else if f == 4 {
            assert(p =~= seq![p[0], p[1], p[2], p[3], p[4], p[5], p[6], p[7]]);
            assert(wire(record_of(s)) =~= seq![s[0]] + p);
        } else if f == 7 {
            assert(p =~= p.subrange(0, 4) + seq![p[4], p[5], p[6], p[7]]);
            assert(wire(record_of(s)) =~= seq![s[0]] + p);
        } else if f == 6 || 8 <= f <= 11 {
            assert(p =~= p.subrange(0, 4));
            assert(wire(record_of(s)) =~= seq![s[0]] + p);
        } else {
            assert(wire(record_of(s)) =~= seq![s[0]] + p);
        }
    }
}

/// A stream that parses consists of exactly the octets of its records: nothing
/// is dropped, and nothing is left over.
pub proof fn parsing_loses_nothing(s: Seq<u8>)
    ensures
        parsed_stream(s) matches Ok(records) ==> wire_all(records) == s && forall|i: int|
            0 <= i < records.len() ==> storable(#[trigger] records[i]),
    decreases s.len(),
{
    if s.len() > 0 && record_error(s) is None {
        let rest = s.skip(record_len(s));
        record_accounts_for_its_octets(s);
        parsing_loses_nothing(rest);
        if let Ok(tail) = parsed_stream(rest) {
            let records = seq![record_of(s)] + tail;
            assert(records.skip(1) =~= tail);
            assert(s.subrange(0, record_len(s)) + rest =~= s);
            assert forall|i: int| 0 <= i < records.len() implies storable(#[trigger] records[i]) by {
                if i > 0 {
                    assert(records[i] == tail[i - 1]);
                }
            }
        }
    }
}

} // verus!
