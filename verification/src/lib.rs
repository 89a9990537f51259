//! Escape-time rendering of the Mandelbrot set.
//!
//! The crate holds the parts of a renderer that are decided by integers: how
//! many rounds an orbit is followed and which round counts as the escape, how
//! an escape time becomes a grey level, in which order the pixels of a grid are
//! visited and laid out, how a sequence of zoom frames is unfolded, and which
//! parameters are refused before any work is done. The arithmetic and the
//! comparisons on the complex plane are handed in by the caller as closures,
//! so the same verified code serves any number type.

pub mod animation;
pub mod error;
pub mod escape;
pub mod grid;
pub mod render;

pub use animation::{render_animation, zoom_bounds};
pub use error::RenderError;
pub use escape::{escape_time, intensity};
pub use grid::{has_uniform_rows, rendering_to_pixels, try_rendering_to_pixels, Rendering};
pub use render::{render, ESCAPE_LIMIT};
