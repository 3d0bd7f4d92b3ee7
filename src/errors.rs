use vstd::prelude::*;

verus! {

/// A bracket that has no partner; the payload is its 0-based position in the source.
#[derive(Debug, Clone, Copy, PartialEq, Eq, Structural)]
pub enum InterpreterError {
    /// A `]` with no unmatched `[` before it.
    NoMatchingOpenLoop(usize),
    /// A `[` that is never closed.
    NoMatchingCloseLoop(usize),
}

} // verus!
