//! The options a run of the checker is configured with.

use vstd::prelude::*;

verus! {

/// Which whitespace character an indentation run must use.
#[derive(Debug, Clone, Copy, PartialEq, Eq)]
pub enum IndentStyle {
    Space,
    Tab,
}

/// The line-terminator convention a file is expected to follow.
#[derive(Debug, Clone, Copy, PartialEq, Eq)]
pub enum LineEnding {
    Lf,
    Crlf,
    Cr,
}

/// The character encodings a file can be declared to use.
#[derive(Debug, Clone, Copy, PartialEq, Eq)]
pub enum Charset {
    Latin1,
    Utf8,
    Utf8WithBom,
    Utf16BigEndian,
    Utf16LittleEndian,
}

impl Default for Charset {
    fn default() -> (r: Self)
        ensures
            r == Charset::Utf8,
    {
        Charset::Utf8
    }
}

/// The rules in force for one checked file. Every option is optional; an
/// absent option switches the corresponding family of diagnostics off.
/// An absent `charset` selects byte-transparent decoding.
#[derive(Debug, Clone, Copy, PartialEq, Eq)]
pub struct Config {
    pub indent_style: Option<IndentStyle>,
    pub indent_size: Option<usize>,
    pub tab_width: Option<usize>,
    pub end_of_line: Option<LineEnding>,
    pub charset: Option<Charset>,
    pub trim_trailing_whitespace: Option<bool>,
    pub insert_final_newline: Option<bool>,
}

/// An `indent_size`, when given, is a positive number of columns.
pub open spec fn config_wf(config: Config) -> bool {
    match config.indent_size {
        Some(size) => size >= 1,
        None => true,
    }
}

} // verus!
