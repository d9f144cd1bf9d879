//! The macroblock layer's header.

use crate::pb_layer::{ImprovedModb, ModbPresence};
use crate::picture_header::H263PictureCodingType;
use vstd::prelude::*;

verus! {

/// Macroblock type.
#[derive(Clone, Copy, Debug, PartialEq, Eq, Structural)]
pub enum MbType {
    Inter,
    /// INTER with a quantiser change.
    InterQ,
    /// INTER with four vectors.
    Inter4V,
    Intra,
    /// INTRA with a quantiser change.
    IntraQ,
    /// INTER with four vectors and a quantiser change.
    Inter4VQ,
    /// No macroblock at all.
    Stuffing,
}

impl MbType {
    /// The macroblock is not predicted from another picture.
    pub open spec fn intra(self) -> bool {
        self == MbType::Intra || self == MbType::IntraQ
    }

    /// The macroblock changes the quantiser.
    pub open spec fn requantises(self) -> bool {
        self == MbType::InterQ || self == MbType::IntraQ || self == MbType::Inter4VQ
    }

    /// The macroblock has a vector for each luma block.
    pub open spec fn four_vectors(self) -> bool {
        self == MbType::Inter4V || self == MbType::Inter4VQ
    }

    /// The macroblock has at least one vector.
    pub open spec fn inter(self) -> bool {
        self == MbType::Inter || self == MbType::InterQ || self.four_vectors()
    }

    /// The macroblock is not predicted from another picture.
    pub fn is_intra(self) -> (b: bool)
        ensures
            b == self.intra(),
    {
        matches!(self, MbType::Intra | MbType::IntraQ)
    }

    /// The macroblock changes the quantiser.
    pub fn has_dquant(self) -> (b: bool)
        ensures
            b == self.requantises(),
    {
        matches!(self, MbType::InterQ | MbType::IntraQ | MbType::Inter4VQ)
    }

    /// The macroblock has at least one vector.
    pub fn has_mvd(self) -> (b: bool)
        ensures
            b == self.inter(),
    {
        matches!(self, MbType::Inter | MbType::InterQ | MbType::Inter4V | MbType::Inter4VQ)
    }

    /// The macroblock sends a vector for each luma block, in a mode that has
    /// them.
    pub fn has_mvd2_4(self, advanced_prediction: bool, deblocking_filter: bool) -> (b: bool)
        ensures
            b == (self.four_vectors() && (advanced_prediction || deblocking_filter)),
    {
        matches!(self, MbType::Inter4V | MbType::Inter4VQ) && (advanced_prediction
            || deblocking_filter)
    }
}

/// A vector difference in half pixels.
#[derive(Clone, Copy, Debug, PartialEq, Eq, Structural)]
pub struct Mvd {
    pub dx_half: i8,
    pub dy_half: i8,
}

/// Direction of advanced INTRA prediction.
#[derive(Clone, Copy, Debug, PartialEq, Eq, Structural)]
pub enum IntraMode {
    /// DC from the blocks above and to the left.
    DcOnly,
    /// DC and first row from the block above.
    Vertical,
    /// DC and first column from the block to the left.
    Horizontal,
}

/// What a macroblock parser has to know of the picture and of the macroblocks
/// before.
#[derive(Clone, Copy, Debug, PartialEq, Eq, Structural)]
pub struct MbContext {
    pub picture_coding_type: H263PictureCodingType,
    pub advanced_prediction: bool,
    pub aic_intra_mode: bool,
    pub pb_frames: bool,
    pub pb_annex_m: bool,
    pub quantiser_before: u8,
    pub modified_quant: bool,
    pub deblocking_filter: bool,
}

/// A parsed macroblock header; fields not sent are `None`.
#[derive(Clone, Copy, Debug, PartialEq, Eq, Structural)]
pub struct H263Macroblock {
    pub coded: bool,
    pub mb_type: Option<MbType>,
    /// Which chroma blocks have coefficients: Cb, Cr.
    pub cbpc: Option<u8>,
    /// Which luma blocks have coefficients, as INTRA macroblocks count them.
    pub cbpy: Option<u8>,
    pub dquant: Option<i8>,
    pub quantiser_after: u8,
    pub mvd: Option<Mvd>,
    pub mvd2: Option<Mvd>,
    pub mvd3: Option<Mvd>,
    pub mvd4: Option<Mvd>,
    pub intra_mode: Option<IntraMode>,
    pub modb: Option<ModbPresence>,
    pub annex_m_modb: Option<ImprovedModb>,
    pub cbpb: Option<u8>,
    pub mvdb: Option<Mvd>,
}

/// A macroblock header without any field.
pub open spec fn bare_macroblock(coded: bool, quantiser: u8) -> H263Macroblock {
    H263Macroblock {
        coded,
        mb_type: None,
        cbpc: None,
        cbpy: None,
        dquant: None,
        quantiser_after: quantiser,
        mvd: None,
        mvd2: None,
        mvd3: None,
        mvd4: None,
        intra_mode: None,
        modb: None,
        annex_m_modb: None,
        cbpb: None,
        mvdb: None,
    }
}

impl H263Macroblock {
    /// A macroblock header without any field.
    pub fn bare(coded: bool, quantiser: u8) -> (mb: H263Macroblock)
        ensures
            mb == bare_macroblock(coded, quantiser),
    {
        H263Macroblock {
            coded,
            mb_type: None,
            cbpc: None,
            cbpy: None,
            dquant: None,
            quantiser_after: quantiser,
            mvd: None,
            mvd2: None,
            mvd3: None,
            mvd4: None,
            intra_mode: None,
            modb: None,
            annex_m_modb: None,
            cbpb: None,
            mvdb: None,
        }
    }
}

/// A quantiser moved by `diff`, kept within 1..=31.
pub open spec fn requantised(before: int, diff: int) -> int {
    if before + diff < 1 {
        1
    } else if before + diff > 31 {
        31
    } else {
        before + diff
    }
}

/// A quantiser moved by `diff`, kept within 1..=31.
pub fn requantise(before: u8, diff: i8) -> (after: u8)
    ensures
        after == requantised(before as int, diff as int),
        1 <= after <= 31,
{
    let q: i16 = before as i16 + diff as i16;
    if q < 1 {
        1
    } else if q > 31 {
        31
    } else {
        q as u8
    }
}

} // verus!
