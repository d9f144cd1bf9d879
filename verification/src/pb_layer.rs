//! What a PB-frame's macroblock layer adds for the B-picture.

use vstd::prelude::*;

verus! {

/// Which B-picture fields MODB announces.
#[derive(Clone, Copy, Debug, PartialEq, Eq, Structural)]
pub enum ModbPresence {
    Neither,
    MvdbOnly,
    CbpbAndMvdb,
}

impl ModbPresence {
    /// CBPB is sent.
    pub fn has_cbpb(self) -> (b: bool)
        ensures
            b == (self == ModbPresence::CbpbAndMvdb),
    {
        matches!(self, ModbPresence::CbpbAndMvdb)
    }

    /// MVDB is sent.
    pub fn has_mvdb(self) -> (b: bool)
        ensures
            b == (self != ModbPresence::Neither),
    {
        !matches!(self, ModbPresence::Neither)
    }
}

/// How an improved PB-frame predicts a B-macroblock.
#[derive(Clone, Copy, Debug, PartialEq, Eq, Structural)]
pub enum BpbCodingMode {
    /// From both pictures, with vectors scaled from the P-macroblock's.
    Bidirectional,
    /// From the previous picture, with a vector of its own.
    Forward,
    /// From the P-macroblock.
    Backward,
}

/// MODB of an improved PB-frame.
#[derive(Clone, Copy, Debug, PartialEq, Eq, Structural)]
pub struct ImprovedModb {
    pub mode: BpbCodingMode,
    /// CBPB is sent.
    pub has_cbpb: bool,
}

impl ImprovedModb {
    /// How the B-macroblock is predicted.
    pub fn coding_mode(self) -> (m: BpbCodingMode)
        ensures
            m == self.mode,
    {
        self.mode
    }

    /// MVDB is sent: only forward prediction has a vector of its own.
    pub fn has_mvdb(self) -> (b: bool)
        ensures
            b == (self.mode == BpbCodingMode::Forward),
    {
        matches!(self.mode, BpbCodingMode::Forward)
    }
}

} // verus!
