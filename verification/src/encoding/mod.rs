//! Value encoders and decoders of the format.

pub mod decoder;
pub mod encoder;
pub mod ts2diff;
pub mod ts2diff_decoder;
