//! The options of the command line, as plain values.

use vstd::prelude::*;
use crate::log::LogLevel;

verus! {

/// All options.
#[derive(Debug, Clone, PartialEq, Eq)]
pub struct Args {
    /// Read the standard input.
    pub stdin: bool,
    pub input: Input,
    pub filter: Filter,
}

/// Where the lines come from.
#[derive(Debug, Clone, PartialEq, Eq)]
pub struct Input {
    /// Read this file.
    pub input_file: Option<String>,
    /// Run `adb logcat` and read what it prints.
    pub exec_adb_logcat: bool,
}

/// Which entries are shown. A field that is `None` holds nothing back.
#[derive(Debug, Clone, PartialEq, Eq)]
pub struct Filter {
    /// Only entries of this process.
    pub pid: Option<u32>,
    /// Only entries of this thread.
    pub tid: Option<u32>,
    /// Only entries of this level or of a more severe one.
    pub level: Option<LogLevel>,
    /// Only entries whose whole tag matches one of these expressions.
    pub tag: Option<Vec<String>>,
    /// Only entries whose message matches one of these expressions somewhere.
    pub message: Option<Vec<String>>,
}

} // verus!
