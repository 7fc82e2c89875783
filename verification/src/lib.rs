//! Renders rectangular views of the Mandelbrot set as indexed-color images:
//! palette generation, fixed-point escape-time evaluation, row-granular work
//! partitioning, ordered reassembly of rows completed in any order, and
//! encoding through an indexed-color image encoder.

pub mod fixed;
pub mod escape;
pub mod palette;
pub mod render;
pub mod reassemble;
pub mod encode;
