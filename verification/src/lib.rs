//! Verified core of a Mandelbrot renderer.
//!
//! The library holds the parts of the renderer whose behaviour is exact
//! integer and string logic: parsing paired command-line values, splitting
//! a pixel surface into horizontal bands for parallel workers, turning
//! escape counts into greyscale intensities, and assembling the bands
//! back into one buffer. The floating-point escape iteration itself and
//! the image encoding live outside the library.

pub mod argument;
pub mod partition;
pub mod shade;
