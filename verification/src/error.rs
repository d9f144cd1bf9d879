//! The error that the codec's parsers, decoders and encoders return.

use vstd::prelude::*;

verus! {

/// What can be wrong with a bitstream, or with a request to write one.
#[derive(Clone, Copy, Debug, PartialEq, Eq, Structural)]
pub enum Error {
    /// The stream asks for a coding mode that is not supported.
    NotImplemented,
    /// The stream ends in the middle of a syntax structure.
    UnexpectedEof,
    /// The picture start code is not where it should be.
    BadPictureStartCode,
    /// PTYPE bits 1 and 2 are not `10`.
    BadPtypeFixedBits,
    /// The source format code is the forbidden `000`.
    ForbiddenSourceFormat,
    /// The source format code announces an extended PTYPE.
    ExtendedPtypeNotSupported,
    /// A reserved field of PLUSPTYPE holds a reserved value.
    PlusPtypeReservedField,
    /// PLUSPTYPE asks for a syntax that is not supported.
    PlusPtypeUnsupported,
    /// A PB-frame's temporal references leave no room for its B-picture.
    BadPbTemporalReference,
    /// A quantiser is outside 1..=31.
    InvalidQuantiser,
    /// A group of blocks does not start with its start code.
    BadGobStartCode,
    /// A slice header's start code or one of its marker bits is wrong.
    BadSliceHeader,
    /// A slice starts at a macroblock that the picture does not have.
    SliceMbaOutOfRange,
    /// Slices overlap, go backwards or leave macroblocks out.
    BadSliceCoverage,
    /// A slice is followed by something other than stuffing.
    BadSliceStuffing,
    /// No MBTYPE or MCBPC code of a B-picture or an enhancement layer matches.
    BadScalabilityMbType,
    /// No MCBPC code matches, or a macroblock type has none.
    BadMcbpcCode,
    /// No CBPY code matches, or a coded block pattern does not fit in four bits.
    BadCbpyCode,
    /// A quantiser differential has no code.
    BadDquant,
    /// No MVD code matches, or a vector difference has no code.
    BadMvdCode,
    /// An INTRADC code is forbidden, or a level has no code.
    BadIntradcCode,
    /// No TCOEF code matches, or a coefficient event has no code.
    BadTcoefCode,
    /// Coefficient runs lead past the end of a block.
    BadTcoefRunOverflow,
    /// An RTP payload header is malformed.
    RtpBadPayloadHeader,
    /// An RTP payload is shorter than its header says.
    RtpTruncatedPacket,
    /// The RTP payload budget leaves no room for data.
    RtpPayloadTooSmall,
}

} // verus!
