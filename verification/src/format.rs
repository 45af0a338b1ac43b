//! The binary layout of a solution file, as functions on byte sequences.
//!
//! All integers are four bytes, little-endian, two's complement. A flag is
//! one byte, true exactly when it is `1`. A file holds, in this order:
//!
//! | field | layout |
//! |---|---|
//! | version | integer code |
//! | level | integer |
//! | name | integer length, then that many bytes of UTF-8 |
//! | solved | flag |
//! | time, cost, area | three integers |
//! | parts | integer count, then that many part records |
//! | instructions | integer count, then that many instruction records |
//!
//! Each function here reads one field of a byte sequence `s` at a position
//! `pos` and gives the value together with the position behind the field, or
//! the error that ends decoding there.

use crate::codes::{InstructionKind, ParseEnum, PartKind, Version};
use crate::error::KaizenError;
use crate::point::Point;
use crate::solution::{Instruction, Part, SolutionView};
use vstd::prelude::*;
use vstd::utf8::{decode_utf8, valid_utf8};

verus! {

/// The integer that four bytes stand for, the lowest byte first.
pub open spec fn le_i32(b0: u8, b1: u8, b2: u8, b3: u8) -> i32 {
    let u = b0 as int + 0x100 * (b1 as int) + 0x1_0000 * (b2 as int) + 0x100_0000 * (b3 as int);
    if u < 0x8000_0000 {
        u as i32
    } else {
        (u - 0x1_0000_0000) as i32
    }
}

/// The integer in the four bytes of `s` from `pos` on.
pub open spec fn word_at(s: Seq<u8>, pos: int) -> i32 {
    le_i32(s[pos], s[pos + 1], s[pos + 2], s[pos + 3])
}

/// Whether `s` holds `n` bytes from `pos` on.
pub open spec fn has_bytes(s: Seq<u8>, pos: int, n: int) -> bool {
    0 <= pos && 0 <= n && pos + n <= s.len()
}

/// The next `n` bytes.
pub open spec fn bytes_at(s: Seq<u8>, pos: int, n: int) -> Result<(Seq<u8>, int), KaizenError> {
    if has_bytes(s, pos, n) {
        Ok((s.subrange(pos, pos + n), pos + n))
    } else {
        Err(KaizenError::CorruptedFile)
    }
}

/// A flag: one byte, true exactly when the byte is `1`.
pub open spec fn bool_at(s: Seq<u8>, pos: int) -> Result<(bool, int), KaizenError> {
    if has_bytes(s, pos, 1) {
        Ok((s[pos] == 1, pos + 1))
    } else {
        Err(KaizenError::CorruptedFile)
    }
}

/// An integer.
pub open spec fn i32_at(s: Seq<u8>, pos: int) -> Result<(i32, int), KaizenError> {
    if has_bytes(s, pos, 4) {
        Ok((word_at(s, pos), pos + 4))
    } else {
        Err(KaizenError::CorruptedFile)
    }
}

/// A count or a length: an integer that must not be negative.
pub open spec fn len_at(s: Seq<u8>, pos: int) -> Result<(nat, int), KaizenError> {
    if has_bytes(s, pos, 4) && word_at(s, pos) >= 0 {
        Ok((word_at(s, pos) as nat, pos + 4))
    } else {
        Err(KaizenError::CorruptedFile)
    }
}

/// A point: its `x`, then its `y`.
pub open spec fn point_at(s: Seq<u8>, pos: int) -> Result<(Point, int), KaizenError> {
    if has_bytes(s, pos, 8) {
        Ok((Point { x: word_at(s, pos), y: word_at(s, pos + 4) }, pos + 8))
    } else {
        Err(KaizenError::CorruptedFile)
    }
}

/// An integer code, mapped to the variant it stands for.
pub open spec fn enum_at<T: ParseEnum<i32>>(s: Seq<u8>, pos: int) -> Result<(T, int), KaizenError> {
    if has_bytes(s, pos, 4) {
        match T::from_code(word_at(s, pos)) {
            Ok(v) => Ok((v, pos + 4)),
            Err(e) => Err(e),
        }
    } else {
        Err(KaizenError::CorruptedFile)
    }
}

/// A text of `len` bytes of UTF-8.
pub open spec fn text_at(s: Seq<u8>, pos: int, len: nat) -> Result<(Seq<char>, int), KaizenError> {
    if has_bytes(s, pos, len as int) && valid_utf8(s.subrange(pos, pos + len)) {
        Ok((decode_utf8(s.subrange(pos, pos + len)), pos + len))
    } else {
        Err(KaizenError::CorruptedFile)
    }
}

/// A text behind its length.
pub open spec fn string_at(s: Seq<u8>, pos: int) -> Result<(Seq<char>, int), KaizenError> {
    match len_at(s, pos) {
        Ok((len, start)) => text_at(s, start, len),
        Err(e) => Err(e),
    }
}

/// The number of bytes of a part record.
pub open spec fn part_size() -> int {
    28
}

/// A part record: kind, arm, position, size, input.
///
/// The kind is judged as soon as its four bytes are there, before the rest of
/// the record is looked at.
pub open spec fn part_at(s: Seq<u8>, pos: int) -> Result<(Part, int), KaizenError> {
    match enum_at::<PartKind>(s, pos) {
        Err(e) => Err(e),
        Ok((kind, _)) => if has_bytes(s, pos, part_size()) {
            Ok(
                (
                    Part {
                        kind,
                        arm: word_at(s, pos + 4),
                        pos: Point { x: word_at(s, pos + 8), y: word_at(s, pos + 12) },
                        size: Point { x: word_at(s, pos + 16), y: word_at(s, pos + 20) },
                        input: word_at(s, pos + 24),
                    },
                    pos + part_size(),
                ),
            )
        } else {
            Err(KaizenError::CorruptedFile)
        },
    }
}

/// `n` part records in a row. The first record that fails ends decoding.
pub open spec fn parts_at(s: Seq<u8>, pos: int, n: nat) -> Result<(Seq<Part>, int), KaizenError>
    decreases n,
{
    if n == 0 {
        Ok((Seq::empty(), pos))
    } else {
        match parts_at(s, pos, (n - 1) as nat) {
            Err(e) => Err(e),
            Ok((parts, next)) => match part_at(s, next) {
                Err(e) => Err(e),
                Ok((part, end)) => Ok((parts.push(part), end)),
            },
        }
    }
}

/// The parts of a file: a count, then that many records.
pub open spec fn part_list_at(s: Seq<u8>, pos: int) -> Result<(Seq<Part>, int), KaizenError> {
    match len_at(s, pos) {
        Ok((n, start)) => parts_at(s, start, n),
        Err(e) => Err(e),
    }
}

/// The number of bytes of an instruction record under a version.
pub open spec fn instruction_size(version: Version) -> int {
    if version == Version::V2 {
        25
    } else {
        21
    }
}

/// The number of bytes of `n` instruction records under a version.
pub open spec fn instructions_size(version: Version, n: nat) -> nat {
    if version == Version::V2 {
        25 * n
    } else {
        21 * n
    }
}

/// An instruction record: column, row, kind, arm, distance, grab and, under
/// [`Version::V2`], one reserved integer that is skipped.
///
/// The kind is judged as soon as the record's first twelve bytes are there.
pub open spec fn instruction_at(s: Seq<u8>, pos: int, version: Version) -> Result<
    (Instruction, int),
    KaizenError,
> {
    if !has_bytes(s, pos, 8) {
        Err(KaizenError::CorruptedFile)
    } else {
        match enum_at::<InstructionKind>(s, pos + 8) {
            Err(e) => Err(e),
            Ok((kind, _)) => if has_bytes(s, pos, instruction_size(version)) {
                Ok(
                    (
                        Instruction {
                            column: word_at(s, pos),
                            row: word_at(s, pos + 4),
                            kind,
                            arm: word_at(s, pos + 12),
                            distance: word_at(s, pos + 16),
                            grab: s[pos + 20] == 1,
                        },
                        pos + instruction_size(version),
                    ),
                )
            } else {
                Err(KaizenError::CorruptedFile)
            },
        }
    }
}

/// `n` instruction records in a row. The first record that fails ends
/// decoding.
pub open spec fn instructions_at(s: Seq<u8>, pos: int, n: nat, version: Version) -> Result<
    (Seq<Instruction>, int),
    KaizenError,
>
    decreases n,
{
    if n == 0 {
        Ok((Seq::empty(), pos))
    } else {
        match instructions_at(s, pos, (n - 1) as nat, version) {
            Err(e) => Err(e),
            Ok((instructions, next)) => match instruction_at(s, next, version) {
                Err(e) => Err(e),
                Ok((instruction, end)) => Ok((instructions.push(instruction), end)),
            },
        }
    }
}

/// The instructions of a file: a count, then that many records.
pub open spec fn instruction_list_at(s: Seq<u8>, pos: int, version: Version) -> Result<
    (Seq<Instruction>, int),
    KaizenError,
> {
    match len_at(s, pos) {
        Ok((n, start)) => instructions_at(s, start, n, version),
        Err(e) => Err(e),
    }
}

/// The fields of a file that stand before its parts.
pub struct Header {
    pub version: Version,
    pub level: i32,
    pub name: Seq<char>,
    pub solved: bool,
    pub time: i32,
    pub cost: i32,
    pub area: i32,
}

/// The header: version, level, name, solved, time, cost, area.
///
/// The version is judged as soon as its four bytes are there.
pub open spec fn header_at(s: Seq<u8>, pos: int) -> Result<(Header, int), KaizenError> {
    match enum_at::<Version>(s, pos) {
        Err(e) => Err(e),
        Ok((version, _)) => match string_at(s, pos + 8) {
            Err(e) => Err(e),
            Ok((name, next)) => if has_bytes(s, next, 13) {
                Ok(
                    (
                        Header {
                            version,
                            level: word_at(s, pos + 4),
                            name,
                            solved: s[next] == 1,
                            time: word_at(s, next + 1),
                            cost: word_at(s, next + 5),
                            area: word_at(s, next + 9),
                        },
                        next + 13,
                    ),
                )
            } else {
                Err(KaizenError::CorruptedFile)
            },
        },
    }
}

/// A whole file from `pos` on: header, parts, instructions, and then the end
/// of `s`.
pub open spec fn solution_at(s: Seq<u8>, pos: int) -> Result<SolutionView, KaizenError> {
    match header_at(s, pos) {
        Err(e) => Err(e),
        Ok((header, parts_pos)) => match part_list_at(s, parts_pos) {
            Err(e) => Err(e),
            Ok((parts, instructions_pos)) => match instruction_list_at(
                s,
                instructions_pos,
                header.version,
            ) {
                Err(e) => Err(e),
                Ok((instructions, end)) => if end == s.len() {
                    Ok(
                        SolutionView {
                            level: header.level,
                            name: header.name,
                            solved: header.solved,
                            time: header.time,
                            cost: header.cost,
                            area: header.area,
                            parts,
                            instructions,
                        },
                    )
                } else {
                    Err(KaizenError::CorruptedFile)
                },
            },
        },
    }
}

/// What a byte sequence decodes to: the solution it holds, or the first
/// error met on the way through it.
pub open spec fn decode(s: Seq<u8>) -> Result<SolutionView, KaizenError> {
    solution_at(s, 0)
}

} // verus!
