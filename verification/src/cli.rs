//! Helpers of the command-line interface.
pub mod common;
pub mod handlers;
pub mod info;
