//! Device I/O logic for a handwriting tablet assistant: calibration of the
//! supported hardware, framebuffer decoding, trigger-gesture recognition, and
//! the synthesis of pen and touch input events.
use vstd::prelude::*;

pub mod capture;
pub mod device;
pub mod events;
pub mod pen;
pub mod raster;
pub mod touch;

verus! {

} // verus!
