//! Decoding of raw encoded media bytes into pixel frames: format
//! sniffing, dispatch to a format decoder, and the decoded result.

pub mod decoded;
pub mod decoder;
pub mod frame;
pub mod image;
