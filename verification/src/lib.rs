//! Scoring of solution files for a factory-automation puzzle.
//!
//! A solution file is a little-endian, length-prefixed binary record. This
//! crate decodes such a record from memory, holds the decoded content
//! against the placement and scheduling rules of the game, and reports the
//! solver's metrics together with a flag that tells whether the content
//! could have been produced by the game itself.

pub mod codes;
pub mod encoding;
pub mod error;
pub mod format;
pub mod framing;
pub mod point;
pub mod reader;
pub mod rules;
pub mod solution;
pub mod text;

pub use crate::codes::ParseEnum;
pub use crate::error::KaizenError;

use crate::format::decode;
use crate::rules::{is_manipulated, manipulated};
use crate::solution::Solution;
use vstd::prelude::*;

verus! {

/// The metrics of a solved puzzle.
#[derive(Clone, Copy, Debug, PartialEq, Eq, Structural)]
pub struct Score {
    pub level: i32,
    pub time: i32,
    pub cost: i32,
    pub area: i32,
    /// Whether the solution breaks a rule of the game. The metrics of such
    /// a solution are reported all the same.
    pub manipulated: bool,
}

/// The score that a byte sequence earns.
///
/// An error of decoding comes first; then an unsolved puzzle, whatever its
/// content; and only a solved one is held against the rules of the game.
pub open spec fn score_of(bytes: Seq<u8>) -> Result<Score, KaizenError> {
    match decode(bytes) {
        Err(e) => Err(e),
        Ok(solution) => if solution.solved {
            Ok(
                Score {
                    level: solution.level,
                    time: solution.time,
                    cost: solution.cost,
                    area: solution.area,
                    manipulated: manipulated(solution),
                },
            )
        } else {
            Err(KaizenError::SolutionIncomplete)
        },
    }
}

/// A file that decodes to an unsolved puzzle has no score, whether or not
/// its content obeys the rules of the game.
pub proof fn lemma_unsolved_has_no_score(bytes: Seq<u8>)
    requires
        decode(bytes) matches Ok(solution) && !solution.solved,
    ensures
        score_of(bytes) == Err::<Score, KaizenError>(KaizenError::SolutionIncomplete),
{
}

/// Scores a solution file held in memory.
pub fn score(bytes: &[u8]) -> (r: Result<Score, KaizenError>)
    ensures
        r == score_of(bytes@),
{
    let solution = Solution::try_from(bytes)?;
    if solution.solved {
        let manipulated = is_manipulated(&solution);
        Ok(
            Score {
                level: solution.level,
                time: solution.time,
                cost: solution.cost,
                area: solution.area,
                manipulated,
            },
        )
    } else {
        Err(KaizenError::SolutionIncomplete)
    }
}

} // verus!
