//! Layout, animation and interaction engine for a zoomable map of a
//! repository's directory tree, together with the tree model it works on.
//!
//! Every real-valued quantity (coordinates, zoom factors, weights, progress)
//! is a fixed-point number with three decimal places, stored as an integer
//! count of thousandths; times are milliseconds.

pub mod animation;
pub mod cache;
pub mod directory;
pub mod files;
pub mod fixed;
pub mod geometry;
pub mod git;
pub mod interaction;
pub mod layout;
pub mod palette;
pub mod paths;
pub mod statistics;
pub mod text;
pub mod trusted;
pub mod visualization;
