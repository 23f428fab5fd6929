//! Colour-picking core: screen-capture geometry, pixel sampling, colour
//! formats, configuration rules and the daemon's event decisions.

pub mod averages;
pub mod canvas;
pub mod capture;
pub mod color;
pub mod config;
pub mod daemon;
pub mod formats;
pub mod menu;
pub mod menu_reading;
pub mod text;
pub mod toml_doc;
pub mod toml_text;
