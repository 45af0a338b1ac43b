//! The closed sets of integer codes of the file format.

use crate::error::KaizenError;
use vstd::prelude::*;

verus! {

/// A closed set of variants, each written in a file as one code of type `T`.
pub trait ParseEnum<T>: Sized {
    /// The variant that `value` stands for, or the error that names `value`.
    spec fn from_code(value: T) -> Result<Self, KaizenError>;

    /// Maps a code to its variant; a code that stands for none is an error
    /// that carries the code.
    fn try_from(value: T) -> (r: Result<Self, KaizenError>)
        ensures
            r == Self::from_code(value),
    ;
}

/// The revision of the file layout.
#[derive(Clone, Copy, Debug, PartialEq, Eq, Structural)]
pub enum Version {
    /// No version has been read yet.
    Unknown,
    /// Code 10: an instruction record ends with its `grab` byte.
    V1,
    /// Code 11: an instruction record ends with one more reserved integer.
    V2,
}

impl Version {
    /// The code under which this version is written in a file. A file
    /// names its version, so `Unknown` has no code of its own; the `0` given
    /// for it here stands for no version.
    pub open spec fn code(self) -> i32 {
        match self {
            Version::Unknown => 0,
            Version::V1 => 10,
            Version::V2 => 11,
        }
    }
}

impl ParseEnum<i32> for Version {
    open spec fn from_code(value: i32) -> Result<Self, KaizenError> {
        if value == 10 {
            Ok(Version::V1)
        } else if value == 11 {
            Ok(Version::V2)
        } else {
            Err(KaizenError::UnknownVersion(value))
        }
    }

    fn try_from(value: i32) -> (r: Result<Self, KaizenError>) {
        match value {
            10 => Ok(Version::V1),
            11 => Ok(Version::V2),
            other => Err(KaizenError::UnknownVersion(other)),
        }
    }
}

/// The kind of a placed part.
#[derive(Clone, Copy, Debug, PartialEq, Eq, Structural)]
pub enum PartKind {
    Arm,
    Cutter,
    Drill,
    Input,
    Riveter,
    Track,
    Welder,
}

impl PartKind {
    /// The code under which this kind is written in a file.
    pub open spec fn code(self) -> i32 {
        match self {
            PartKind::Arm => 1,
            PartKind::Track => 2,
            PartKind::Welder => 3,
            PartKind::Riveter => 4,
            PartKind::Cutter => 5,
            PartKind::Input => 6,
            PartKind::Drill => 8,
        }
    }

    /// Whether parts of this kind carry an arm label.
    pub open spec fn has_arm(self) -> bool {
        self == PartKind::Arm || self == PartKind::Drill
    }
}

impl ParseEnum<i32> for PartKind {
    open spec fn from_code(value: i32) -> Result<Self, KaizenError> {
        if value == 1 {
            Ok(PartKind::Arm)
        } else if value == 2 {
            Ok(PartKind::Track)
        } else if value == 3 {
            Ok(PartKind::Welder)
        } else if value == 4 {
            Ok(PartKind::Riveter)
        } else if value == 5 {
            Ok(PartKind::Cutter)
        } else if value == 6 {
            Ok(PartKind::Input)
        } else if value == 8 {
            Ok(PartKind::Drill)
        } else {
            Err(KaizenError::UnknownPart(value))
        }
    }

    fn try_from(value: i32) -> (r: Result<Self, KaizenError>) {
        match value {
            1 => Ok(PartKind::Arm),
            2 => Ok(PartKind::Track),
            3 => Ok(PartKind::Welder),
            4 => Ok(PartKind::Riveter),
            5 => Ok(PartKind::Cutter),
            6 => Ok(PartKind::Input),
            8 => Ok(PartKind::Drill),
            other => Err(KaizenError::UnknownPart(other)),
        }
    }
}

/// The kind of a scheduled instruction.
#[derive(Clone, Copy, Debug, PartialEq, Eq, Structural)]
pub enum InstructionKind {
    Extend,
    Flip,
    Poke,
    Slide,
}

impl InstructionKind {
    /// The code under which this kind is written in a file.
    pub open spec fn code(self) -> i32 {
        match self {
            InstructionKind::Extend => 1,
            InstructionKind::Slide => 2,
            InstructionKind::Flip => 3,
            InstructionKind::Poke => 4,
        }
    }
}

impl ParseEnum<i32> for InstructionKind {
    open spec fn from_code(value: i32) -> Result<Self, KaizenError> {
        if value == 1 {
            Ok(InstructionKind::Extend)
        } else if value == 2 {
            Ok(InstructionKind::Slide)
        } else if value == 3 {
            Ok(InstructionKind::Flip)
        } else if value == 4 {
            Ok(InstructionKind::Poke)
        } else {
            Err(KaizenError::UnknownInstruction(value))
        }
    }

    fn try_from(value: i32) -> (r: Result<Self, KaizenError>) {
        match value {
            1 => Ok(InstructionKind::Extend),
            2 => Ok(InstructionKind::Slide),
            3 => Ok(InstructionKind::Flip),
            4 => Ok(InstructionKind::Poke),
            other => Err(KaizenError::UnknownInstruction(other)),
        }
    }
}

/// Codes and variants answer each other: the code of a variant stands for
/// that variant, and a code that stands for a variant is the code of that
/// variant. No two codes stand for the same variant.
pub proof fn lemma_codes_name_variants()
    ensures
        forall|version: Version|
            version != Version::Unknown ==> Version::from_code(#[trigger] version.code())
                == Ok::<Version, KaizenError>(version),
        forall|code: i32|
            #[trigger] Version::from_code(code) matches Ok(version) ==> version.code() == code,
        forall|kind: PartKind|
            PartKind::from_code(#[trigger] kind.code()) == Ok::<PartKind, KaizenError>(kind),
        forall|code: i32|
            #[trigger] PartKind::from_code(code) matches Ok(kind) ==> kind.code() == code,
        forall|kind: InstructionKind|
            InstructionKind::from_code(#[trigger] kind.code()) == Ok::<
                InstructionKind,
                KaizenError,
            >(kind),
        forall|code: i32|
            #[trigger] InstructionKind::from_code(code) matches Ok(kind) ==> kind.code() == code,
{
}

/// A code that stands for no variant is an error that carries the code.
pub proof fn lemma_unknown_codes_are_named(code: i32)
    ensures
        !(code == 10 || code == 11) ==> Version::from_code(code) == Err::<Version, KaizenError>(
            KaizenError::UnknownVersion(code),
        ),
        !(1 <= code <= 6 || code == 8) ==> PartKind::from_code(code) == Err::<
            PartKind,
            KaizenError,
        >(KaizenError::UnknownPart(code)),
        !(1 <= code <= 4) ==> InstructionKind::from_code(code) == Err::<
            InstructionKind,
            KaizenError,
        >(KaizenError::UnknownInstruction(code)),
{
}

} // verus!
