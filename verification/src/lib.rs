//! Plans how egui output is painted with Skia.
//!
//! The library decides what has to be drawn: which textures are uploaded, patched and freed, how
//! a mesh is cut into pieces that Skia can draw, which paint each piece is drawn with, and in
//! which order the canvas is clipped, saved and restored. It returns these decisions as a list of
//! [`command::Command`]s, which a backend that owns the canvas carries out one by one.

pub mod color;
pub mod command;
pub mod frame;
pub mod geometry;
pub mod laws;
pub mod mesh;
pub mod painter;
pub mod raster;
pub mod runs;
mod seqs;
pub mod texture;

