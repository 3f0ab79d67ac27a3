//! Abra: verified image-processing primitives.
//!
//! The crate holds the integer logic of the Abra image library: pixel
//! buffers, colours, histograms, window filters, tiling and the canvas layer
//! stack, each with a contract proved by Verus.

pub mod grid;
pub mod image;
pub mod encode;
pub mod errors;
pub mod histogram;
pub mod window;
pub mod median;
pub mod despeckle;
pub mod surface;
pub mod box_blur;
pub mod tiles;
pub mod ident;
pub mod canvas;
pub mod sampling;
pub mod noise;
pub mod plugin;
pub mod color;
pub mod apply_area;
pub mod adjust;
pub mod yaml;
pub mod settings;
pub mod ai;
