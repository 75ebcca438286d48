//! Rendering records as styled lines.

pub mod colors;
pub mod formatter;
pub mod log_line;
