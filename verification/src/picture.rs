//! Decoding of whole pictures.

pub mod aic_blocks;
pub mod aic_state;
pub mod b_part;
pub mod blocks;
pub mod deblocking;
pub mod decode;
pub mod frame;
pub mod gobs;
pub mod grid;
pub mod layout;
pub mod locality;
pub mod macroblocks;
pub mod predictions;
pub mod repetition;
pub mod shim;
pub mod slices;
pub mod walk;

pub use aic_state::{
    aic_chroma_neighbour_above, aic_chroma_neighbour_left, aic_luma_neighbour_above,
    aic_luma_neighbour_left, luma_block_grid_pos, AicBlockMeta, AicState, Neighbour,
};
pub use decode::{
    decode_improved_pb_picture, decode_pb_picture, decode_picture, decode_picture_layer,
    decode_picture_layer_with_inherited, DecodePictureOutcome, PbFramePair,
};
pub use frame::{blit_block, luma_block_origin, DecodeOptions, YuvFrame};
pub use grid::{
    build_4mv_neighbourhood, classify_remote_mvs, predict_mv, record_grid, MbGridEntry,
};
pub use layout::PictureLayout;
pub use shim::{plus_ptype_to_baseline_shim, PlusShimOutcome};
