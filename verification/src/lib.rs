//! Escape-time rendering of the Mandelbrot set: the discrete half of the
//! pipeline, with every function verified.
//!
//! Real numbers cross this crate as IEEE-754 binary32 bit patterns. The
//! arithmetic on them is the caller's: it is borrowed as closures, and the
//! contracts here say what is made of whatever those closures may return.
//! What is decided here: which settings can be rendered, the loop and the
//! budget of the escape-time test, what becomes of a degenerate index, the
//! rounding of levels to channels, the palette, and the raster.

pub mod args;
pub mod color;
pub mod escape;
pub mod frame;
pub mod mandelbrot;
pub mod options;
pub mod palette;
pub mod scalar;
pub mod window;
