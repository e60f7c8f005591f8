//! Verified core of a Mandelbrot escape-time renderer.
//!
//! The library holds the logic of the renderer: the escape-time decision
//! rule, the pixel color rule, the raster buffer, and the partitioning of
//! raster rows into worker bands. The floating-point arithmetic itself
//! (the complex iteration step, the viewport interpolation and the sine
//! shading formula) is performed by the caller, which feeds its outcomes
//! into the verified decision functions here.

pub mod color;
pub mod escape;
pub mod raster;
pub mod render;
