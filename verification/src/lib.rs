//! A frame compositor: merges an ordered set of timed visual overlays
//! (text, static images, animated image sequences) into a single RGBA
//! pixel buffer for a given timestamp, and reports how long a render
//! loop may wait before the next redraw is due.

pub mod compositor;
pub mod frame;
pub mod media;
pub mod message;
pub mod network;
pub mod rendering;
pub mod overlay;
