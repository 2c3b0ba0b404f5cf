//! Gem-art pattern generation: turns a raster photo into a printable grid of
//! palette-coloured cells with a legend, with the geometry, the colour
//! matching and the legend rules proved against their contracts.

pub mod codec;
pub mod compose;
pub mod dmc_colors;
pub mod error;
pub mod grid;
pub mod ident;
pub mod image_processing;
pub mod layout;
pub mod legend;
pub mod legend_sheet;
pub mod models;
pub mod palette_index;
pub mod raster;
pub mod selection;
pub mod utils;
