//! A tiled Mandelbrot rendering lab.
//!
//! - `fractal`: the layout, checks and colouring of one rendered tile.
//! - `plan`, `assemble`, `image`, `png_output`: splitting an image into tiles,
//!   putting the workers' answers back together, and encoding the result.
//! - `args`: the renderer's command line.
//! - `api`, `origin`: the hello API's types, how its replies are classified,
//!   and how a client's origin prefixes request paths.
//! - `delay`, `hello`: the demo server's response delays and greeting.

pub mod api;
pub mod args;
pub mod assemble;
pub mod delay;
pub mod fractal;
pub mod hello;
pub mod image;
pub mod origin;
pub mod plan;
pub mod png_output;
pub mod renderer;

mod buffer;
