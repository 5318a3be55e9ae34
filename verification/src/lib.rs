//! A small image-processing core: channel-typed pixel values, a total
//! conversion matrix between the four supported pixel formats, and an
//! immutable image buffer with per-pixel access, whole-buffer conversion
//! and four-sided cropping.

pub mod codec;
pub mod control;
pub mod image;
pub mod pixel;
