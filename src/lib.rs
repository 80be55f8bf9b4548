//! Escape-time fractal rendering: the integer core of the renderer.
//!
//! The library holds the parts of the renderer that work on whole numbers:
//! image dimensions, the partition of an image into horizontal bands, the
//! mapping of escape counts to grey levels, the filling of the pixel buffer,
//! the selection of an escape algorithm by name and the parsing of
//! separator-delimited pairs. The finished buffer is encoded as a PNG file
//! by the image crate.
pub mod algorithms;
pub mod bands;
pub mod encoding;
pub mod intensity;
pub mod parsers;
pub mod render;
pub mod types;

pub use algorithms::{get_plotting_algorithm, Algorithm, BurningShip, EscapeTime};
pub use intensity::{map_intensity, map_ranges};
pub use parsers::parse_pair;
pub use render::{render, RenderError};
pub use types::{Dimensions, Pixel};
