//! What the command line asks for, and what is done with each line of input.

pub mod args;
pub mod run;
