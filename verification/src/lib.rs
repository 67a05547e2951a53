//! A small line-oriented substring search library.
//!
//! The library splits a text into lines, numbers them starting at 1, and
//! returns the lines that contain a query string, either exactly or after
//! lowercasing both sides.  A companion configuration resolver turns a list
//! of command-line arguments and the presence of one environment variable
//! into a validated search configuration.

pub mod config;
pub mod laws;
pub mod search;
pub mod text;
