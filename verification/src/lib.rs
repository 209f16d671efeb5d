//! Escape-time fractal engines (Mandelbrot and Julia sets) rendered to RGBA
//! rasters, with all numerics carried out in 2^24-scaled fixed-point
//! arithmetic so that every cell count and pixel byte is pinned down exactly.

pub mod argand;
pub mod fixed;
pub mod inverse;
pub mod julia;
pub mod mandel;
pub mod utils;

pub use fixed::FX_ONE;
