//! Basis Set Exchange: retrieval, manipulation and conversion of
//! Gaussian-type orbital basis sets for computational chemistry.
pub mod api;
pub mod cli;
pub mod dir_writer;
pub mod compose;
pub mod error;
pub mod fields;
pub mod formats;
pub mod lut;
pub mod manip;
pub mod misc;
pub mod numeral;
pub mod printing;
pub mod readers;
pub mod sort;
pub mod text;
pub mod writers;
