//! Syntax-based arithmetic coding.

pub mod blocks;
pub mod coder;
pub mod inverse;
pub mod macroblocks;
pub mod models;
pub mod syntax;
