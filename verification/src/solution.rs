//! The decoded content of a solution file.

use crate::codes::{InstructionKind, PartKind};
use crate::error::KaizenError;
use crate::format::decode;
use crate::point::Point;
use crate::reader::SolutionReader;
use vstd::prelude::*;

verus! {

/// One placed factory component.
#[derive(Clone, Copy, Debug, PartialEq, Eq, Structural)]
pub struct Part {
    pub kind: PartKind,
    /// The label of an arm, or `-1` for a part that is none.
    pub arm: i32,
    pub pos: Point,
    /// The extent of the part, a directed length along one axis.
    pub size: Point,
    /// The id of an input, or `-1` for a part that is none.
    pub input: i32,
}

/// One scheduled action of an arm.
#[derive(Clone, Copy, Debug, PartialEq, Eq, Structural)]
pub struct Instruction {
    pub column: i32,
    pub row: i32,
    pub kind: InstructionKind,
    /// The label of the part that carries out the action.
    pub arm: i32,
    pub distance: i32,
    pub grab: bool,
}

/// A decoded solution file.
#[derive(Debug, PartialEq, Eq)]
pub struct Solution {
    pub level: i32,
    pub name: String,
    pub solved: bool,
    pub time: i32,
    pub cost: i32,
    pub area: i32,
    pub parts: Vec<Part>,
    pub instructions: Vec<Instruction>,
}

/// What a [`Solution`] holds, as mathematical values.
pub struct SolutionView {
    pub level: i32,
    pub name: Seq<char>,
    pub solved: bool,
    pub time: i32,
    pub cost: i32,
    pub area: i32,
    pub parts: Seq<Part>,
    pub instructions: Seq<Instruction>,
}

impl View for Solution {
    type V = SolutionView;

    open spec fn view(&self) -> SolutionView {
        SolutionView {
            level: self.level,
            name: self.name@,
            solved: self.solved,
            time: self.time,
            cost: self.cost,
            area: self.area,
            parts: self.parts@,
            instructions: self.instructions@,
        }
    }
}

/// The outcome of decoding, with the solution taken by its view.
pub open spec fn decoded(r: Result<Solution, KaizenError>) -> Result<SolutionView, KaizenError> {
    match r {
        Ok(solution) => Ok(solution@),
        Err(e) => Err(e),
    }
}

impl Solution {
    /// Decodes a solution file held in memory.
    ///
    /// Decoding is all or nothing: either every byte of `data` belongs to
    /// the one solution that is returned, or the first error met is.
    pub fn try_from(data: &[u8]) -> (r: Result<Self, KaizenError>)
        ensures
            decoded(r) == decode(data@),
    {
        let mut reader = SolutionReader::from(data);
        reader.read_solution()
    }
}

} // verus!
