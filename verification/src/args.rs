//! The pipeline's configuration, as an external argument parser hands it
//! over: which file to read, which transforms to run, and how to render.

use vstd::prelude::*;

verus! {

/// When cells are colorized: never, always, or when the terminal is
/// judged capable by the caller.
#[derive(Debug, Copy, Clone, PartialEq, Eq, Structural)]
pub enum Color {
    Never,
    Always,
    Auto,
}

/// What selection does with the resolved value: `Only` replaces the
/// record by it; `Append` adds it to the record; `Auto` is reserved and
/// rejected.
#[derive(Debug, Copy, Clone, PartialEq, Eq, Structural)]
pub enum SelectMode {
    Only,
    Append,
    Auto,
}

#[derive(Debug)]
pub struct Args {
    pub file: String,
    /// Fields to flatten, one level deep.
    pub flatten: Vec<String>,
    pub color: Color,
    /// Dotted path to select; `.` selects the whole record.
    pub select: String,
    pub select_mode: SelectMode,
    /// Field to sort by.
    pub sort: Option<String>,
    /// Equality filter expression, `field=value`.
    pub filter: Option<String>,
}

} // verus!
