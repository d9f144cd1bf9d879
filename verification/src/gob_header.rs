//! The header of a group of blocks.

use crate::bits;
use crate::bits::read_field;
use crate::error::Error;
use oxideav_core::bits::BitReader;
use vstd::prelude::*;

verus! {

/// The start code's value.
pub const GBSC_VALUE: u32 = 1;

/// The start code's width in bits.
pub const GBSC_BITS: u32 = 17;

/// The group number's width in bits.
pub const GN_BITS: u32 = 5;

/// The frame identifier's width in bits.
pub const GFID_BITS: u32 = 2;

/// The quantiser's width in bits.
pub const GQUANT_BITS: u32 = 5;

/// The header of a group of blocks.
#[derive(Clone, Copy, Debug, PartialEq, Eq, Structural)]
pub struct GobHeader {
    pub group_number: u8,
    pub frame_id: u8,
    pub quantiser: u8,
}

/// The header at bit `at`.
pub open spec fn gob_at(s: Seq<bool>, at: int) -> Result<(GobHeader, int), Error> {
    if !bits::has_bits(s, at, 17) {
        Err(Error::UnexpectedEof)
    } else if bits::field(s, at, 17) != GBSC_VALUE {
        Err(Error::BadGobStartCode)
    } else if !bits::has_bits(s, at, 29) {
        Err(Error::UnexpectedEof)
    } else if bits::field(s, at + 24, 5) == 0 {
        Err(Error::InvalidQuantiser)
    } else {
        Ok(
            (
                GobHeader {
                    group_number: bits::field(s, at + 17, 5) as u8,
                    frame_id: bits::field(s, at + 22, 2) as u8,
                    quantiser: bits::field(s, at + 24, 5) as u8,
                },
                at + 29,
            ),
        )
    }
}

/// Read the header of a group of blocks.
pub fn parse_gob_layer(r: &mut BitReader<'_>) -> (res: Result<GobHeader, Error>)
    ensures
        bits::read_as(
            gob_at(bits::stream(*old(r)), bits::bits_read(*old(r)) as int),
            res,
            *old(r),
            *final(r),
        ),
        res matches Ok(h) ==> 1 <= h.quantiser <= 31,
{
    proof {
        vstd::arithmetic::power2::lemma2_to64();
    }
    if read_field(r, GBSC_BITS)? != GBSC_VALUE {
        return Err(Error::BadGobStartCode);
    }
    let group_number: u32 = read_field(r, GN_BITS)?;
    let frame_id: u32 = read_field(r, GFID_BITS)?;
    let quantiser: u32 = read_field(r, GQUANT_BITS)?;
    if quantiser == 0 {
        return Err(Error::InvalidQuantiser);
    }
    Ok(
        GobHeader {
            group_number: group_number as u8,
            frame_id: frame_id as u8,
            quantiser: quantiser as u8,
        },
    )
}

} // verus!
