//! Library part of a lightweight Steam client: parsing of Steam's local
//! data files, the game library model and the decisions the client makes.

pub mod text;
pub mod acf;
pub mod sorting;
pub mod model;
pub mod vdf;
pub mod library;
pub mod names;
pub mod steam;
pub mod display;
pub mod images;
pub mod state;
pub mod laws;
pub mod library_laws;
pub mod scan_laws;
