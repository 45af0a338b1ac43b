//! A forward-only cursor that decodes the fields of a solution file.

use crate::codes::{InstructionKind, ParseEnum, PartKind, Version};
use crate::error::KaizenError;
use crate::format::{
    bool_at, bytes_at, enum_at, i32_at, instruction_at, instruction_list_at, instructions_at,
    le_i32, len_at, part_at, part_list_at, parts_at, point_at, solution_at, string_at, text_at,
};
use crate::framing::{lemma_instructions_at_stays_failed, lemma_parts_at_stays_failed};
use crate::point::Point;
use crate::solution::{Instruction, Part, Solution};
use vstd::prelude::*;
use vstd::slice::{slice_subrange, slice_to_vec};

verus! {

/// Computes the integer that four bytes stand for, the lowest byte first.
pub fn i32_from_le(b0: u8, b1: u8, b2: u8, b3: u8) -> (r: i32)
    ensures
        r == le_i32(b0, b1, b2, b3),
{
    let u: i64 = b0 as i64 + 0x100 * (b1 as i64) + 0x1_0000 * (b2 as i64) + 0x100_0000 * (
    b3 as i64);
    if u < 0x8000_0000 {
        u as i32
    } else {
        (u - 0x1_0000_0000) as i32
    }
}

/// A cursor over the bytes of one file.
///
/// The cursor only moves forward. It remembers the version that the header
/// named, because the layout of an instruction depends on it. A read that
/// fails leaves the cursor where it stood or further on, never behind the
/// end of the bytes; what was read up to then is lost.
pub struct SolutionReader<'a> {
    data: &'a [u8],
    pos: usize,
    version: Version,
}

impl<'a> SolutionReader<'a> {
    /// The cursor never stands behind the end of the bytes.
    #[verifier::type_invariant]
    spec fn in_bounds(self) -> bool {
        self.pos <= self.data@.len()
    }

    /// The bytes of the file, read or not.
    pub closed spec fn bytes(self) -> Seq<u8> {
        self.data@
    }

    /// The number of bytes behind the cursor.
    pub closed spec fn position(self) -> int {
        self.pos as int
    }

    /// The version under which instructions are read.
    pub closed spec fn version(self) -> Version {
        self.version
    }

    /// A cursor at the start of `data` that has seen no version yet.
    pub fn from(data: &'a [u8]) -> (r: Self)
        ensures
            r.bytes() == data@,
            r.position() == 0,
            r.version() == Version::Unknown,
    {
        let version = Version::Unknown;
        SolutionReader { data, pos: 0, version }
    }

    /// Whether this cursor is `pre` moved forward: over the same bytes,
    /// under the same version, and not behind the end.
    pub open spec fn advanced(self, pre: Self) -> bool {
        &&& self.bytes() == pre.bytes()
        &&& self.version() == pre.version()
        &&& pre.position() <= self.position() <= self.bytes().len()
    }

    /// Reads the file that starts at the cursor and ends with the bytes.
    ///
    /// The version that the header names is kept for the instructions.
    pub fn read_solution(&mut self) -> (r: Result<Solution, KaizenError>)
        ensures
            final(self).bytes() == old(self).bytes(),
            old(self).position() <= final(self).position() <= final(self).bytes().len(),
            final(self).version() == match enum_at::<Version>(
                old(self).bytes(),
                old(self).position(),
            ) {
                Ok((version, _)) => version,
                Err(_) => old(self).version(),
            },
            match solution_at(old(self).bytes(), old(self).position()) {
                Ok(solution) => {
                    &&& r matches Ok(x)
                    &&& x@ == solution
                    &&& final(self).position() == final(self).bytes().len()
                },
                Err(e) => r matches Err(x) && x == e,
            },
    {
        proof {
            use_type_invariant(&*self);
        }
        let version = self.read_enum::<Version>()?;
        self.version = version;
        let level = self.read_i32()?;
        let name = self.read_string()?;
        let solved = self.read_bool()?;
        let time = self.read_i32()?;
        let cost = self.read_i32()?;
        let area = self.read_i32()?;
        let parts = self.read_parts()?;
        let instructions = self.read_instructions()?;
        if self.pos == self.data.len() {
            Ok(Solution { level, name, solved, time, cost, area, parts, instructions })
        } else {
            Err(KaizenError::CorruptedFile)
        }
    }

    /// Reads the next `N` bytes.
    pub fn read_bytes<const N: usize>(&mut self) -> (r: Result<[u8; N], KaizenError>)
        ensures
            final(self).advanced(*old(self)),
            match bytes_at(old(self).bytes(), old(self).position(), N as int) {
                Ok((bytes, next)) => r matches Ok(a) && a@ == bytes && final(self).position()
                    == next,
                Err(e) => r matches Err(x) && x == e,
            },
    {
        proof {
            use_type_invariant(&*self);
        }
        if N > self.data.len() - self.pos {
            return Err(KaizenError::CorruptedFile);
        }
        let data = self.data;
        let start = self.pos;
        let mut buf = [0u8; N];
        let mut i: usize = 0;
        while i < N
            invariant
                i <= N,
                start + N <= data.len(),
                forall|j: int| 0 <= j < i ==> buf@[j] == data@[start + j],
            decreases N - i,
        {
            buf[i] = data[start + i];
            i = i + 1;
        }
        self.pos = start + N;
        Ok(buf)
    }

    /// Reads a flag: one byte, true exactly when the byte is `1`.
    pub fn read_bool(&mut self) -> (r: Result<bool, KaizenError>)
        ensures
            final(self).advanced(*old(self)),
            match bool_at(old(self).bytes(), old(self).position()) {
                Ok((v, next)) => r == Ok::<bool, KaizenError>(v) && final(self).position() == next,
                Err(e) => r == Err::<bool, KaizenError>(e),
            },
    {
        let bytes = self.read_bytes::<1>()?;
        Ok(bytes[0] == 1)
    }

    /// Reads a little-endian integer of four bytes.
    pub fn read_i32(&mut self) -> (r: Result<i32, KaizenError>)
        ensures
            final(self).advanced(*old(self)),
            match i32_at(old(self).bytes(), old(self).position()) {
                Ok((v, next)) => r == Ok::<i32, KaizenError>(v) && final(self).position() == next,
                Err(e) => r == Err::<i32, KaizenError>(e),
            },
    {
        let bytes = self.read_bytes::<4>()?;
        Ok(i32_from_le(bytes[0], bytes[1], bytes[2], bytes[3]))
    }

    /// Reads an integer that serves as a count or a length. A negative one
    /// is an error.
    pub fn read_usize(&mut self) -> (r: Result<usize, KaizenError>)
        ensures
            final(self).advanced(*old(self)),
            match len_at(old(self).bytes(), old(self).position()) {
                Ok((v, next)) => r == Ok::<usize, KaizenError>(v as usize) && v <= i32::MAX
                    && final(self).position() == next,
                Err(e) => r == Err::<usize, KaizenError>(e),
            },
    {
        let v = self.read_i32()?;
        if v < 0 {
            Err(KaizenError::CorruptedFile)
        } else {
            Ok(v as usize)
        }
    }

    /// Reads a point: its `x`, then its `y`.
    pub fn read_point(&mut self) -> (r: Result<Point, KaizenError>)
        ensures
            final(self).advanced(*old(self)),
            match point_at(old(self).bytes(), old(self).position()) {
                Ok((v, next)) => r == Ok::<Point, KaizenError>(v) && final(self).position() == next,
                Err(e) => r == Err::<Point, KaizenError>(e),
            },
    {
        let x = self.read_i32()?;
        let y = self.read_i32()?;
        Ok(Point { x, y })
    }

    /// Reads an integer code and maps it to the variant it stands for.
    pub fn read_enum<T: ParseEnum<i32>>(&mut self) -> (r: Result<T, KaizenError>)
        ensures
            final(self).advanced(*old(self)),
            match enum_at::<T>(old(self).bytes(), old(self).position()) {
                Ok((v, next)) => r == Ok::<T, KaizenError>(v) && final(self).position() == next,
                Err(e) => r == Err::<T, KaizenError>(e),
            },
    {
        let code = self.read_i32()?;
        T::try_from(code)
    }

    /// Reads a text behind its length.
    pub fn read_string(&mut self) -> (r: Result<String, KaizenError>)
        ensures
            final(self).advanced(*old(self)),
            match string_at(old(self).bytes(), old(self).position()) {
                Ok((v, next)) => r matches Ok(x) && x@ == v && final(self).position() == next,
                Err(e) => r matches Err(x) && x == e,
            },
    {
        let len = self.read_usize()?;
        self.read_fixed_size_string(len)
    }

    /// Reads a text of `len` bytes of UTF-8.
    ///
    /// Nothing is allocated unless `len` bytes are there to be read.
    pub fn read_fixed_size_string(&mut self, len: usize) -> (r: Result<String, KaizenError>)
        ensures
            final(self).advanced(*old(self)),
            match text_at(old(self).bytes(), old(self).position(), len as nat) {
                Ok((v, next)) => r matches Ok(x) && x@ == v && final(self).position() == next,
                Err(e) => r matches Err(x) && x == e,
            },
    {
        proof {
            use_type_invariant(&*self);
        }
        if len > self.data.len() - self.pos {
            return Err(KaizenError::CorruptedFile);
        }
        let end = self.pos + len;
        let buf = slice_to_vec(slice_subrange(self.data, self.pos, end));
        match String::from_utf8(buf) {
            Ok(text) => {
                self.pos = end;
                Ok(text)
            },
            Err(_) => Err(KaizenError::CorruptedFile),
        }
    }

    /// Reads the parts of a file: a count, then that many records.
    pub fn read_parts(&mut self) -> (r: Result<Vec<Part>, KaizenError>)
        ensures
            final(self).advanced(*old(self)),
            match part_list_at(old(self).bytes(), old(self).position()) {
                Ok((v, next)) => r matches Ok(x) && x@ == v && final(self).position() == next,
                Err(e) => r matches Err(x) && x == e,
            },
    {
        let len = self.read_usize()?;
        let ghost pre = *self;
        let mut parts: Vec<Part> = Vec::new();
        let mut i: usize = 0;
        while i < len
            invariant
                i <= len,
                self.advanced(pre),
                pre.advanced(*old(self)),
                len_at(old(self).bytes(), old(self).position()) == Ok::<(nat, int), KaizenError>(
                    (len as nat, pre.position()),
                ),
                parts_at(pre.bytes(), pre.position(), i as nat) == Ok::<
                    (Seq<Part>, int),
                    KaizenError,
                >((parts@, self.position())),
            decreases len - i,
        {
            match self.read_part() {
                Ok(part) => {
                    parts.push(part);
                },
                Err(e) => {
                    proof {
                        lemma_parts_at_stays_failed(
                            pre.bytes(),
                            pre.position(),
                            (i + 1) as nat,
                            len as nat,
                        );
                    }
                    return Err(e);
                },
            }
            i = i + 1;
        }
        Ok(parts)
    }

    /// Reads one part record.
    pub fn read_part(&mut self) -> (r: Result<Part, KaizenError>)
        ensures
            final(self).advanced(*old(self)),
            match part_at(old(self).bytes(), old(self).position()) {
                Ok((v, next)) => r == Ok::<Part, KaizenError>(v) && final(self).position() == next,
                Err(e) => r == Err::<Part, KaizenError>(e),
            },
    {
        let kind = self.read_enum::<PartKind>()?;
        let arm = self.read_i32()?;
        let pos = self.read_point()?;
        let size = self.read_point()?;
        let input = self.read_i32()?;
        Ok(Part { kind, arm, pos, size, input })
    }

    /// Reads the instructions of a file: a count, then that many records.
    pub fn read_instructions(&mut self) -> (r: Result<Vec<Instruction>, KaizenError>)
        ensures
            final(self).advanced(*old(self)),
            match instruction_list_at(
                old(self).bytes(),
                old(self).position(),
                old(self).version(),
            ) {
                Ok((v, next)) => r matches Ok(x) && x@ == v && final(self).position() == next,
                Err(e) => r matches Err(x) && x == e,
            },
    {
        let len = self.read_usize()?;
        let ghost pre = *self;
        let mut instructions: Vec<Instruction> = Vec::new();
        let mut i: usize = 0;
        while i < len
            invariant
                i <= len,
                self.advanced(pre),
                pre.advanced(*old(self)),
                len_at(old(self).bytes(), old(self).position()) == Ok::<(nat, int), KaizenError>(
                    (len as nat, pre.position()),
                ),
                instructions_at(pre.bytes(), pre.position(), i as nat, pre.version()) == Ok::<
                    (Seq<Instruction>, int),
                    KaizenError,
                >((instructions@, self.position())),
            decreases len - i,
        {
            match self.read_instruction() {
                Ok(instruction) => {
                    instructions.push(instruction);
                },
                Err(e) => {
                    proof {
                        lemma_instructions_at_stays_failed(
                            pre.bytes(),
                            pre.position(),
                            (i + 1) as nat,
                            len as nat,
                            pre.version(),
                        );
                    }
                    return Err(e);
                },
            }
            i = i + 1;
        }
        Ok(instructions)
    }

    /// Reads one instruction record under the cursor's version.
    pub fn read_instruction(&mut self) -> (r: Result<Instruction, KaizenError>)
        ensures
            final(self).advanced(*old(self)),
            match instruction_at(old(self).bytes(), old(self).position(), old(self).version()) {
                Ok((v, next)) => r == Ok::<Instruction, KaizenError>(v) && final(self).position()
                    == next,
                Err(e) => r == Err::<Instruction, KaizenError>(e),
            },
    {
        let column = self.read_i32()?;
        let row = self.read_i32()?;
        let kind = self.read_enum::<InstructionKind>()?;
        let arm = self.read_i32()?;
        let distance = self.read_i32()?;
        let grab = self.read_bool()?;
        if matches!(self.version, Version::V2) {
            self.read_i32()?;
        }
        Ok(Instruction { column, row, kind, arm, distance, grab })
    }
}

} // verus!
