//! What the library promises as a whole, stated apart from how it is computed.

pub mod advanced;
pub mod arithmetic;
pub mod candidates;
pub mod choices;
pub mod codes;
pub mod edges;
pub mod enlargement;
pub mod frequencies;
pub mod headers;
pub mod intra;
pub mod macroblocks;
pub mod pictures;
pub mod prediction;
pub mod transform;
pub mod vectors;
pub mod wire;
