//! Verified core of a circular audio-spectrum display: the hand-off of
//! captured samples, the decisions of the analysis worker, and the
//! integer rendering of a frame (rings, palette, supersampling).

use vstd::prelude::*;

pub mod analizer;
pub mod input_stream;
pub mod output_stream;
pub mod palette;
pub mod visualizer;

verus! {

/// Width of the empty border around the outermost ring, in pixels of the
/// supersampled canvas.
pub const MARGIN: usize = 8;

/// Width of the presented canvas in pixels.
pub const WIDTH: usize = 512 + 2 * MARGIN;

/// Height of the presented canvas in pixels.
pub const HEIGHT: usize = WIDTH;

/// Number of samples per channel that make up one analysis block.
pub const I_BUFF: usize = 2014;

/// Number of bands: rings on the canvas, entries of the palette, and
/// smoothed spectrum values that drive them.
pub const FF_BUFF: usize = 128;

/// Supersampling factor: the canvas is painted at this multiple of its
/// presented size and averaged down.
pub const SCALE_FACTOR: usize = 2;

} // verus!
