//! Text-processing tools for building the Rust book: removing hidden lines
//! from listings, and turning mdBook HTML output into an EPUB.

pub mod text;
pub mod hidden_lines;
pub mod naming;
pub mod urls;
pub mod html;
pub mod summary;
pub mod epub;
pub mod highlight;
pub mod chapters;
pub mod assets;
pub mod package;
pub mod args;
pub mod metadata;
pub mod ownership;
pub mod svg;
