//! A deterministic raster image-transform engine with machine-checked contracts.
//!
//! Every operation is a pure function from complete in-memory images (and plain
//! parameters) to a new image. The contracts are stated over [`raster::Grid`], the
//! mathematical model of a raster.

pub mod binary_op;
pub mod color;
pub mod command;
pub mod error;
pub mod fft;
pub mod filter;
pub mod fourier_desc;
pub mod geometric;
pub mod raster;
pub mod text;
pub mod utils;
