//! The integer core of a Mandelbrot renderer.
//!
//! A render samples every pixel several times, turns each sample into a
//! colour, averages the colours of a pixel, and collects rows that workers
//! finish in any order into one frame. The arithmetic on coordinates is
//! floating point and lives with the caller; what is left is here, and all of
//! it is verified:
//!
//! - [`config`]: the integer parameters of a render and their validation;
//! - [`colour`]: colours, and the colour a sample is drawn in;
//! - [`pixel`]: the colour of a pixel as the truncated mean of its samples;
//! - [`row`]: a row of pixels as bytes;
//! - [`scheduler`]: which row to start next under a concurrency limit;
//! - [`frame`]: the frame buffer and the placement of rows in it;
//! - [`arrivals`]: what a frame is after a stream of rows, in any order.

pub mod arrivals;
pub mod colour;
pub mod config;
pub mod frame;
pub mod pixel;
pub mod row;
pub mod scheduler;
