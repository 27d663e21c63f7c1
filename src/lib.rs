//! Channel packing for textures: combines up to four source rasters into one
//! 8-bit RGBA canvas, one output channel at a time, following a swizzle mask
//! and a select mask.

pub mod format;
pub mod mask;
pub mod sources;
pub mod compose;
pub mod jobs;
pub mod pack;
pub mod progress;
pub mod cli;
