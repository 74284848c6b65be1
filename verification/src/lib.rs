//! A poster/banner generator's text layout engine.
//!
//! A small markup dialect (line breaks, alignment tags, font directives)
//! is parsed into lines of styled text runs; line geometry is computed
//! from measured run sizes, and every run is placed within its line by
//! alignment and baseline rules.  The result is an ordered list of draw
//! commands for a raster canvas.

pub mod chars;
pub mod color;
pub mod content;
pub mod font;
pub mod layout;
pub mod line;
pub mod markup;
pub mod text;
pub mod utils;
