//! Terminal sprite display: picks named sprites and arranges them onto a
//! single raster canvas bounded by the terminal's width, wrapping sprites
//! into rows, bottom-aligning each row, and packing rows with one unit of
//! spacing.

pub mod cli;
pub mod list;
pub mod pokemon;
pub mod sprites;
pub mod text;
