//! The palette: which colour each part of a line is shown in.

use vstd::prelude::*;
use crate::log::LogLevel;

verus! {

/// One of the sixteen terminal colours.
#[derive(Debug, Clone, Copy, PartialEq, Eq, Structural, Hash)]
pub enum Color {
    Black,
    Red,
    Green,
    Yellow,
    Blue,
    Magenta,
    Cyan,
    White,
    BrightBlack,
    BrightRed,
    BrightGreen,
    BrightYellow,
    BrightBlue,
    BrightMagenta,
    BrightCyan,
    BrightWhite,
}

/// The colour of a section header.
pub const HEADER: Color = Color::BrightBlack;

/// The colour of the time stamp.
pub const DATETIME: Color = Color::Magenta;

/// The colour of the process number.
pub const PID: Color = Color::BrightBlack;

/// The colour of the thread number.
pub const TID: Color = Color::BrightBlack;

/// The colour of a tag.
pub const TAG: Color = Color::White;

/// The colour of the tag that stands for a missing one.
pub const MISSING_TAG: Color = Color::BrightBlack;

/// The colour of the letter on a level badge.
pub const LEVEL_FOREGROUND: Color = Color::BrightWhite;

/// The colour that stands for a level: the background of its badge and the
/// colour of the messages logged at it.
pub open spec fn level_color(level: LogLevel) -> Color {
    match level {
        LogLevel::Silent => Color::BrightBlack,
        LogLevel::Verbose => Color::Cyan,
        LogLevel::Debug => Color::Blue,
        LogLevel::Info => Color::Green,
        LogLevel::Warning => Color::Yellow,
        LogLevel::Error => Color::Red,
        LogLevel::Fatal => Color::BrightRed,
    }
}

/// The colour that stands for a level.
pub fn color_of_level(level: LogLevel) -> (c: Color)
    ensures
        c == level_color(level),
{
    match level {
        LogLevel::Silent => Color::BrightBlack,
        LogLevel::Verbose => Color::Cyan,
        LogLevel::Debug => Color::Blue,
        LogLevel::Info => Color::Green,
        LogLevel::Warning => Color::Yellow,
        LogLevel::Error => Color::Red,
        LogLevel::Fatal => Color::BrightRed,
    }
}

} // verus!
