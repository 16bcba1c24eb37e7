//! The command surface the tool honors: the argument record, the choice
//! between building and fetching, and the error kinds of a run.

use vstd::prelude::*;

verus! {

/// The options of one invocation, as the command line hands them over.
#[derive(Debug)]
pub struct IndexArgs {
    /// Path of the source text file.
    pub file: String,
    /// Path of the index: the output when building, the input when fetching.
    pub idx: String,
    /// Optional encoding name; accepted, but with no effect on behavior.
    pub encoding: Option<String>,
    /// How many lines to fetch; absent means build an index instead.
    pub take: Option<u32>,
    /// Zero-indexed line to start fetching at; required with `take`.
    pub start: Option<u32>,
}

/// What one invocation does: build an index, or fetch `take` lines starting
/// at line `start`.
#[derive(PartialEq, Eq, Structural, Debug, Clone, Copy)]
pub enum Mode {
    Build,
    Fetch { start: u32, take: u32 },
}

/// The error kinds of a run.
#[derive(PartialEq, Eq, Structural, Debug, Clone, Copy)]
pub enum ToolError {
    /// A required option combination is missing: `take` without `start`.
    UsageError,
    /// The source could not be opened, or the index not created or opened.
    FileError,
    /// A record could not be written to the index.
    WriteError,
    /// A seek against the source or the index failed.
    SeekError,
    /// The record for the requested line could not be read from the index.
    IndexReadError,
}

/// Decide what a run does, before any file is touched: no `take` builds an
/// index; `take` with `start` fetches; `take` without `start` is a usage
/// error.
pub fn select_mode(args: &IndexArgs) -> (r: Result<Mode, ToolError>)
    ensures
        args.take is None ==> r == Ok::<Mode, ToolError>(Mode::Build),
        args.take is Some && args.start is None ==> r == Err::<Mode, ToolError>(
            ToolError::UsageError,
        ),
        args.take matches Some(t) ==> args.start matches Some(st) ==> r == Ok::<
            Mode,
            ToolError,
        >(Mode::Fetch { start: st, take: t }),
{
    match args.take {
        None => Ok(Mode::Build),
        Some(t) => match args.start {
            None => Err(ToolError::UsageError),
            Some(st) => Ok(Mode::Fetch { start: st, take: t }),
        },
    }
}

} // verus!
