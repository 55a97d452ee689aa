//! Positioned, z-ordered visual elements that can be composited onto a
//! canvas frame: static text, static images and looping animated image
//! sequences.

pub mod animated;
pub mod image;
pub mod overlay;
pub mod text;

pub use animated::AnimatedOverlay;
pub use image::ImageOverlay;
pub use overlay::AnyOverlay;
pub use overlay::Overlay;
pub use overlay::OverlayModel;
pub use text::TextOverlay;
