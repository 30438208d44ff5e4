//! Ingestion of per-frame samples, their grouping into shader blocks, and the
//! decisions of a presentation loop, each stated and proved with Verus.

pub mod decode;
pub mod frames;
pub mod render;
pub mod cache;
pub mod tree;
pub mod targets;
