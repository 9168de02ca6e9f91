//! Image-processing primitives on flat pixel buffers, with the structural part of a
//! frequency-domain transform engine: grid validation, fork-join work partitioning with
//! order-preserving reassembly, and circular frequency masks.

pub mod pixel;
pub mod grid;
pub mod partition;
pub mod assembly;
pub mod mask;
pub mod operations;
pub mod thinning;
pub mod filters;
pub mod morphology;
pub mod color;
pub mod resize;
pub mod threshold;
