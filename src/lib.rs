//! Turns a raster image into a palette-indexed pair of C array literals: a
//! deduplicated colour palette and one palette index per pixel, each written
//! as an array declaration wrapped to 80 columns.

pub mod color;
pub mod config;
pub mod emit;
pub mod error;
pub mod palette;
pub mod pipeline;

pub use color::{Rgb, Rgb565};
pub use config::{ColourFormat, Config, ConfigError};
pub use error::ConvertError;
pub use pipeline::{render, Image};
