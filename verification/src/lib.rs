//! Verified pieces of an ITU-T H.263 video codec.

pub mod b_picture;
pub mod bits;
pub mod block;
pub mod block_layer;
pub mod deblock;
pub mod error;
pub mod gob_header;
pub mod laws;
pub mod macroblock;
pub mod macroblock_layer;
pub mod motion;
pub mod pb_layer;
pub mod picture;
pub mod picture_header;
pub mod plus_ptype;
pub mod rate_control;
pub mod residual;
pub mod rru_filter;
pub mod rru_upsample;
pub mod rtp;
pub mod sac;
pub mod scal_upsample;
pub mod scalability;
pub mod sei;
pub mod slice;
pub mod slice_header;
pub mod upsample;
pub mod vlc;
