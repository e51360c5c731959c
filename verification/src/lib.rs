//! Decision logic of a terminal document viewer.

pub mod app;
pub mod app_laws;
pub mod arith;
pub mod convert;
pub mod document;
pub mod error;
pub mod image_pipeline;
pub mod interleave;
pub mod intervals;
pub mod raster;
pub mod real32;
pub mod regions;
pub mod render_laws;
pub mod render_loop;
pub mod render_rest;
pub mod renderer;
pub mod residency;
mod seqs;
pub mod screen;
pub mod state;
pub mod terminal;
pub mod text;
