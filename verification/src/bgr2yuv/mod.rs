//! Colour conversion from packed BGR and BGRA rasters to YUV planes:
//! per-pixel conversion in [`pixel`], whole-raster conversion with 4:2:0
//! chroma subsampling in [`raster`].

pub mod pixel;
pub mod raster;
