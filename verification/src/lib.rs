//! Membership grid of the Mandelbrot set over a square raster.
//!
//! The crate holds the integer and decision logic of the renderer: how a flat
//! pixel index becomes a grid cell, when the escape-time test stops and with
//! which verdict, and how the classification buffer is laid out. The real
//! arithmetic on plane coordinates is supplied by the caller.

pub mod pixel;
pub mod grid;
pub mod escape;
pub mod engine;
