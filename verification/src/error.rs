//! The ways in which scoring a solution file can fail.

use vstd::prelude::*;

verus! {

/// Why a byte sequence could not be scored.
///
/// Every error is final for the input that caused it: the same bytes give the
/// same error again.
#[derive(Clone, Copy, Debug, PartialEq, Eq, Structural)]
pub enum KaizenError {
    /// The framing is broken: the input ends inside a field, a length is
    /// negative, the name is not valid UTF-8, or bytes are left over.
    CorruptedFile,
    /// The file was decoded, but the puzzle in it is not solved.
    SolutionIncomplete,
    /// An instruction carries a kind code that stands for no instruction.
    UnknownInstruction(i32),
    /// A part carries a kind code that stands for no part.
    UnknownPart(i32),
    /// The file starts with a version code that is not known.
    UnknownVersion(i32),
}

} // verus!
