//! Image decoders: single-frame formats and animated GIF.

pub mod basic_decoder;
pub mod gif_decoder;

pub use basic_decoder::BasicDecoder;
pub use gif_decoder::GifDecoder;
