//! Reading Android logcat output: a line parser, a composable entry filter and
//! a formatter that lays entries out in aligned, styled columns.

pub mod cli;
pub mod filter;
pub mod format;
pub mod input;
pub mod log;
pub mod parse;
pub mod pattern;
pub mod round_trip;
pub mod shape;
pub mod text;
pub mod timestamp;
