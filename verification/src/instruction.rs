//! Instructions and the errors of parsing.

use vstd::prelude::*;

verus! {

/// One instruction of the machine.
///
/// The two loop instructions carry the position, in the same program, of the
/// bracket they belong with.
#[derive(Clone, Copy, Debug, PartialEq, Eq, Structural)]
pub enum Op {
    /// `+`: add one to the current cell.
    Inc,
    /// `-`: take one from the current cell.
    Dec,
    /// `<`: move the cursor one cell to the left.
    Left,
    /// `>`: move the cursor one cell to the right.
    Right,
    /// `,`: read one byte into the current cell.
    Read,
    /// `.`: write the current cell out.
    Write,
    /// `[`: holds the position of the matching `]`.
    LoopStart(usize),
    /// `]`: holds the position of the matching `[`.
    LoopEnd(usize),
}

/// Why a source text is not a program. Each variant carries the index, counted
/// in characters of the source text, of the bracket at fault.
#[derive(Clone, Copy, Debug, PartialEq, Eq, Structural)]
pub enum ParseError {
    /// A `[` that no `]` closes; the index is that of the outermost such `[`.
    UnmatchedLoopStart(usize),
    /// A `]` with no `[` open before it; the index is that of the first such `]`.
    UnmatchedLoopEnd(usize),
}

} // verus!
