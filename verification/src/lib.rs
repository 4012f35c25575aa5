//! Verified core of a multi-threaded Monte Carlo path tracer.
//!
//! A camera looks at a scene and renders one image of it: for every pixel a
//! number of rays is aimed at random points of the pixel and followed through
//! the scene, and the pixel gets the mean of what the rays see. The rows of
//! the image are shared among a fixed number of workers, each of which renders
//! its band into a buffer of its own and then copies it into the image. The
//! finished image is written out as plain text.
//!
//! What is proved here is everything between the random numbers, the scene
//! and the threads on one side and the file on the other:
//!
//! - `fixed`, `vec3`: fixed-point numbers and vectors. All real numbers of
//!   the renderer are fixed-point numbers, so that every result is exact and
//!   the same on every machine.
//! - `geometry`, `camera`: the viewport that belongs to a view, the camera
//!   that is built from it, and the rays that the camera aims.
//! - `frame`: how far rounding can bring the unit vectors of a view off
//!   length 1 and off their right angles.
//! - `color`: tints, means, and the tone curve that brings a colour to eight
//!   bits a channel.
//! - `integrator`, `sampling`: the way of a ray through the scene and the
//!   colour of a pixel. The scene and its materials are traits for the caller
//!   to implement.
//! - `bands`, `buffer`, `worker`: which worker renders which rows, the
//!   buffers of the workers and of the image, and the work of one worker.
//! - `progress`: what the observer of a render reports.
//! - `repeat`: when two renders give the same image.
//! - `ppm`: the text of the image file.
//!
//! Starting threads, drawing random numbers, asking the clock and writing
//! files is left to the caller.

pub mod bands;
pub mod buffer;
pub mod camera;
pub mod color;
pub mod fixed;
pub mod frame;
pub mod geometry;
pub mod integrator;
pub mod ppm;
pub mod progress;
pub mod repeat;
pub mod sampling;
pub mod vec3;
pub mod worker;
