//! Buffer marshaling for an external image-resampling engine.
//!
//! The library moves strided pixel buffers across a foreign boundary: a
//! verified row-copy primitive, verified packing of strided rows into the
//! tightly packed layout the resampling engine requires, and the entry
//! points that wrap the engine itself.

pub mod copy_image;
pub mod scale;
pub mod scaling_function;

pub use copy_image::copy_image;
pub use scale::map_error_code;
pub use scale::weave_scale_u16;
pub use scale::weave_scale_u8;
pub use scaling_function::ScalingFunction;
