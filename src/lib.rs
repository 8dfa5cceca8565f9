//! Escape-time rendering of the Mandelbrot set: a fixed-point kernel with
//! supersampling and palettes, a row dispatcher shared by workers, and an
//! aggregator that assembles worker results into the output buffer.
use vstd::prelude::*;

pub mod aggregate;
pub mod colour;
pub mod config;
pub mod dispatch;
pub mod kernel;
pub mod render;

verus! {

} // verus!
