//! Integer core of a genetic image approximator: a target picture is
//! approximated by stamping textured square blocks onto a canvas.  This crate
//! holds the pixel arithmetic, the canvas model, the resolution of blocks to
//! pixel rectangles, scoring by sum of squared differences and the integer
//! bookkeeping of the evolutionary loop.
//!
//! Block geometry (positions and scales) is floating point and is resolved to
//! integer footprints outside this crate; everything below works on integers.

pub mod pixel;
pub mod sums;
pub mod canvas;
pub mod block;
pub mod evolution;
pub mod files;
pub mod gpu;
