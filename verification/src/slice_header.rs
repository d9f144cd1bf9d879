//! Slice headers of pictures with an extended type, and what stands before
//! them.
//!
//! Slices are runs of macroblocks here, in increasing order and without
//! sub-bitstreams.

use crate::bits;
use crate::bits::{read_field, read_flag};
use crate::error::Error;
use oxideav_core::bits::BitReader;
use vstd::prelude::*;

verus! {

/// A marker bit's width in bits.
pub const SEPB_BITS: u32 = 1;

/// The quantiser's width in bits.
pub const SQUANT_BITS: u32 = 5;

/// The frame identifier's width in bits.
pub const GFID_BITS: u32 = 2;

/// The width in bits of a macroblock address in a picture of `macroblocks`
/// macroblocks: that of the smallest standard picture that is no smaller.
pub open spec fn address_bits(macroblocks: int) -> int {
    if macroblocks <= 48 {
        6
    } else if macroblocks <= 99 {
        7
    } else if macroblocks <= 396 {
        9
    } else if macroblocks <= 1584 {
        11
    } else if macroblocks <= 6336 {
        13
    } else {
        14
    }
}

/// Where a slice starts, and its quantiser.
#[derive(Clone, Copy, Debug, PartialEq, Eq, Structural)]
pub struct SliceStart {
    pub mba: u32,
    pub squant: u8,
}

/// The set marker bit at bit `at`.
pub open spec fn marker_at(s: Seq<bool>, at: int) -> Result<((), int), Error> {
    match bits::flag_at(s, at) {
        Ok((b, end)) => if b {
            Ok(((), end))
        } else {
            Err(Error::BadSliceHeader)
        },
        Err(e) => Err(e),
    }
}

/// The header of a picture's first slice at bit `at`: the address between two
/// marker bits.
pub open spec fn first_slice_at(s: Seq<bool>, at: int, macroblocks: int) -> Result<
    (u32, int),
    Error,
> {
    match marker_at(s, at) {
        Err(e) => Err(e),
        Ok((_, p)) => match bits::field_at(s, p, address_bits(macroblocks)) {
            Err(e) => Err(e),
            Ok((mba, q)) => match marker_at(s, q) {
                Err(e) => Err(e),
                Ok((_, end)) => Ok((mba as u32, end)),
            },
        },
    }
}

/// The second marker bit, which keeps a long address from looking like a start
/// code, at bit `at`.
pub open spec fn second_marker_at(s: Seq<bool>, at: int, macroblocks: int) -> Result<
    ((), int),
    Error,
> {
    if address_bits(macroblocks) > 11 {
        marker_at(s, at)
    } else {
        Ok(((), at))
    }
}

/// The quantiser, the third marker bit and the frame identifier at bit `at`.
pub open spec fn slice_tail_at(s: Seq<bool>, at: int, mba: nat) -> Result<
    (SliceStart, int),
    Error,
> {
    match bits::field_at(s, at, 5) {
        Err(e) => Err(e),
        Ok((squant, p)) => if squant == 0 {
            Err(Error::InvalidQuantiser)
        } else {
            match marker_at(s, p) {
                Err(e) => Err(e),
                Ok((_, q)) => match bits::field_at(s, q, 2) {
                    Err(e) => Err(e),
                    Ok((_, end)) => Ok(
                        (SliceStart { mba: mba as u32, squant: squant as u8 }, end),
                    ),
                },
            }
        },
    }
}

/// The header of a later slice at bit `at`, from its start code on.
pub open spec fn slice_at(s: Seq<bool>, at: int, macroblocks: int) -> Result<
    (SliceStart, int),
    Error,
> {
    match bits::field_at(s, at, 17) {
        Err(e) => Err(e),
        Ok((code, p)) => if code != 1 {
            Err(Error::BadSliceHeader)
        } else {
            match marker_at(s, p) {
                Err(e) => Err(e),
                Ok((_, p1)) => match bits::field_at(s, p1, address_bits(macroblocks)) {
                    Err(e) => Err(e),
                    Ok((mba, p2)) => match second_marker_at(s, p2, macroblocks) {
                        Err(e) => Err(e),
                        Ok((_, p3)) => slice_tail_at(s, p3, mba),
                    },
                },
            }
        },
    }
}

/// The clear bits at bit `at` up to the next whole byte.
pub open spec fn stuffing_at(s: Seq<bool>, at: int) -> Result<((), int), Error>
    decreases (8 - at % 8) % 8,
{
    if at % 8 == 0 {
        Ok(((), at))
    } else {
        match bits::flag_at(s, at) {
            Err(e) => Err(e),
            Ok((b, p)) => if b {
                Err(Error::BadSliceStuffing)
            } else {
                stuffing_at(s, p)
            },
        }
    }
}

/// Clear bits up to a whole byte and a slice start code stand at bit `at`.
pub open spec fn slice_boundary_at(s: Seq<bool>, at: int) -> Result<bool, Error> {
    match stuffing_at(s, at) {
        Ok((_, p)) => Ok(bits::has_bits(s, p, 17) && bits::field(s, p, 17) == 1),
        Err(Error::BadSliceStuffing) => Ok(false),
        Err(e) => Err(e),
    }
}

/// The width in bits of a macroblock address.
fn mba_bits(macroblocks: usize) -> (n: u32)
    ensures
        n == address_bits(macroblocks as int),
        6 <= n <= 14,
{
    if macroblocks <= 48 {
        6
    } else if macroblocks <= 99 {
        7
    } else if macroblocks <= 396 {
        9
    } else if macroblocks <= 1584 {
        11
    } else if macroblocks <= 6336 {
        13
    } else {
        14
    }
}

/// Read a marker bit, which is set.
fn read_marker(r: &mut BitReader<'_>) -> (res: Result<(), Error>)
    ensures
        bits::read_as(
            marker_at(bits::stream(*old(r)), bits::bits_read(*old(r)) as int),
            res,
            *old(r),
            *final(r),
        ),
{
    if read_flag(r)? {
        Ok(())
    } else {
        Err(Error::BadSliceHeader)
    }
}

/// Read the header of a picture's first slice.
pub fn parse_first_slice_header(r: &mut BitReader<'_>, macroblocks: usize) -> (res: Result<
    u32,
    Error,
>)
    ensures
        bits::read_as(
            first_slice_at(
                bits::stream(*old(r)),
                bits::bits_read(*old(r)) as int,
                macroblocks as int,
            ),
            res,
            *old(r),
            *final(r),
        ),
{
    read_marker(r)?;
    let mba: u32 = read_field(r, mba_bits(macroblocks))?;
    read_marker(r)?;
    Ok(mba)
}

/// Read the header of a later slice, from its start code on.
pub fn parse_slice_layer(r: &mut BitReader<'_>, macroblocks: usize) -> (res: Result<
    SliceStart,
    Error,
>)
    ensures
        bits::read_as(
            slice_at(
                bits::stream(*old(r)),
                bits::bits_read(*old(r)) as int,
                macroblocks as int,
            ),
            res,
            *old(r),
            *final(r),
        ),
        res matches Ok(h) ==> 1 <= h.squant <= 31,
{
    proof {
        vstd::arithmetic::power2::lemma2_to64();
    }
    let width: u32 = mba_bits(macroblocks);
    if read_field(r, 17)? != 1 {
        return Err(Error::BadSliceHeader);
    }
    read_marker(r)?;
    let mba: u32 = read_field(r, width)?;
    if width > 11 {
        read_marker(r)?;
    }
    let squant: u32 = read_field(r, SQUANT_BITS)?;
    if squant == 0 {
        return Err(Error::InvalidQuantiser);
    }
    read_marker(r)?;
    read_field(r, GFID_BITS)?;
    Ok(SliceStart { mba, squant: squant as u8 })
}

/// Pass over clear bits up to the next whole byte.
pub fn skip_sstuf(r: &mut BitReader<'_>) -> (res: Result<(), Error>)
    ensures
        bits::read_as(
            stuffing_at(bits::stream(*old(r)), bits::bits_read(*old(r)) as int),
            res,
            *old(r),
            *final(r),
        ),
{
    while !r.is_byte_aligned()
        invariant
            bits::moved_on(*old(r), *r),
            stuffing_at(bits::stream(*old(r)), bits::bits_read(*old(r)) as int) == stuffing_at(
                bits::stream(*r),
                bits::bits_read(*r) as int,
            ),
        decreases (8 - bits::bits_read(*r) % 8) % 8,
    {
        if read_flag(r)? {
            return Err(Error::BadSliceStuffing);
        }
    }
    Ok(())
}

/// Tell whether the next slice's header follows, without moving.
pub fn at_slice_boundary(r: &BitReader<'_>) -> (res: Result<bool, Error>)
    ensures
        res == slice_boundary_at(bits::stream(*r), bits::bits_read(*r) as int),
{
    let mut probe: BitReader<'_> = *r;
    match skip_sstuf(&mut probe) {
        Ok(()) => {},
        Err(e) => {
            if matches!(e, Error::BadSliceStuffing) {
                return Ok(false);
            }
            return Err(e);
        },
    }
    match read_field(&mut probe, 17) {
        Ok(code) => Ok(code == 1),
        Err(_) => Ok(false),
    }
}

} // verus!
