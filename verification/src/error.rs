//! The ways in which parsing fails.

use vstd::prelude::*;

verus! {

/// Why a text could not be parsed.
#[derive(Debug, Clone, Copy, PartialEq, Eq, Structural)]
pub enum ParseError {
    /// A line opens a header with `[` and does not close it with `]` at its end.
    MalformedHeader,
}

} // verus!
