pub mod bdsup;
pub mod binary_reader;
pub mod display_set;
pub mod image;
pub mod pgs_types;
pub mod render;
pub mod segments;
pub mod vobs;
pub mod window_adapter;
