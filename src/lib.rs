//! Pixel-by-pixel comparison of two RGBA images: the common comparison area,
//! a block-partitioned scan that counts differing pixels and reports the
//! blocks that hold them, and the outlining of those blocks on a copy of the
//! target image.
pub mod compare;
pub mod geometry;
pub mod highlight;
pub mod raster;
pub mod scan;
