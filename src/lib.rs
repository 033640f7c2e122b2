//! Decoding of fixed-stride point-cloud records into packed position and
//! color buffers.
//!
//! Positions and colors are kept as IEEE-754 single-precision bit patterns
//! (`u32`), so that extracting a coordinate from the record bytes is exact by
//! construction. Shading that needs floating-point arithmetic (intensity
//! scaling, hue conversion) is supplied by the caller as plain functions from
//! bit pattern to bit pattern.
pub mod decoder;
pub mod laws;
pub mod record;

pub use decoder::{get_memory_width, DecodeFault, PCLDecoder, MEMORY_WIDTH};
pub use record::{byte_channel_bits, RecordLayout, ONE_BITS};
