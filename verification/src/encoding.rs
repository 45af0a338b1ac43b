//! The bytes that a writer of the format puts down for a solution, and the
//! proof that decoding gives the solution back.

use crate::codes::Version;
use crate::error::KaizenError;
use crate::format::{
    decode, has_bytes, header_at, instruction_at, instruction_list_at, instruction_size,
    instructions_at, instructions_size, le_i32, part_at, part_list_at, part_size, parts_at,
    string_at, word_at, Header,
};
use crate::solution::{Instruction, Part, SolutionView};
use vstd::prelude::*;
use vstd::utf8::{encode_utf8, encode_utf8_decode_utf8, encode_utf8_valid_utf8};

verus! {

/// The four bytes of an integer, the lowest first.
#[verifier::opaque]
pub open spec fn i32_bytes(v: i32) -> Seq<u8> {
    let u: int = if v < 0 {
        v + 0x1_0000_0000
    } else {
        v as int
    };
    seq![
        (u % 0x100) as u8,
        (u / 0x100 % 0x100) as u8,
        (u / 0x1_0000 % 0x100) as u8,
        (u / 0x100_0000) as u8,
    ]
}

/// The byte of a flag: `1` for true, `0` for false.
pub open spec fn bool_bytes(b: bool) -> Seq<u8> {
    seq![if b { 1u8 } else { 0u8 }]
}

/// A text behind its length in bytes.
pub open spec fn string_bytes(text: Seq<char>) -> Seq<u8> {
    i32_bytes(encode_utf8(text).len() as i32) + encode_utf8(text)
}

/// A part record.
pub open spec fn part_bytes(part: Part) -> Seq<u8> {
    i32_bytes(part.kind.code()) + i32_bytes(part.arm) + i32_bytes(part.pos.x) + i32_bytes(
        part.pos.y,
    ) + i32_bytes(part.size.x) + i32_bytes(part.size.y) + i32_bytes(part.input)
}

/// Part records in a row.
pub open spec fn parts_bytes(parts: Seq<Part>) -> Seq<u8>
    decreases parts.len(),
{
    if parts.len() == 0 {
        Seq::empty()
    } else {
        parts_bytes(parts.drop_last()) + part_bytes(parts.last())
    }
}

/// The parts of a file: their count, then their records.
pub open spec fn part_list_bytes(parts: Seq<Part>) -> Seq<u8> {
    i32_bytes(parts.len() as i32) + parts_bytes(parts)
}

/// An instruction record. Under [`Version::V2`] it ends with `reserved`.
pub open spec fn instruction_bytes(
    instruction: Instruction,
    version: Version,
    reserved: i32,
) -> Seq<u8> {
    let fixed = i32_bytes(instruction.column) + i32_bytes(instruction.row) + i32_bytes(
        instruction.kind.code(),
    ) + i32_bytes(instruction.arm) + i32_bytes(instruction.distance) + bool_bytes(
        instruction.grab,
    );
    if version == Version::V2 {
        fixed + i32_bytes(reserved)
    } else {
        fixed
    }
}

/// Instruction records in a row, the record of number `i` with
/// `reserved[i]`.
pub open spec fn instructions_bytes(
    instructions: Seq<Instruction>,
    version: Version,
    reserved: Seq<i32>,
) -> Seq<u8>
    decreases instructions.len(),
{
    if instructions.len() == 0 {
        Seq::empty()
    } else {
        instructions_bytes(instructions.drop_last(), version, reserved) + instruction_bytes(
            instructions.last(),
            version,
            reserved[instructions.len() - 1],
        )
    }
}

/// The instructions of a file: their count, then their records.
pub open spec fn instruction_list_bytes(
    instructions: Seq<Instruction>,
    version: Version,
    reserved: Seq<i32>,
) -> Seq<u8> {
    i32_bytes(instructions.len() as i32) + instructions_bytes(instructions, version, reserved)
}

/// The header of a file.
pub open spec fn header_bytes(header: Header) -> Seq<u8> {
    i32_bytes(header.version.code()) + i32_bytes(header.level) + string_bytes(header.name)
        + bool_bytes(header.solved) + i32_bytes(header.time) + i32_bytes(header.cost) + i32_bytes(
        header.area,
    )
}

/// The header that a solution is written with under a version.
pub open spec fn header_of(version: Version, solution: SolutionView) -> Header {
    Header {
        version,
        level: solution.level,
        name: solution.name,
        solved: solution.solved,
        time: solution.time,
        cost: solution.cost,
        area: solution.area,
    }
}

/// The file that holds `solution` under `version`, with `reserved[i]` in the
/// reserved field of instruction `i` where the version has that field.
pub open spec fn encode(version: Version, solution: SolutionView, reserved: Seq<i32>) -> Seq<u8> {
    header_bytes(header_of(version, solution)) + part_list_bytes(solution.parts)
        + instruction_list_bytes(solution.instructions, version, reserved)
}

/// Whether a solution can be written under a version: the version is one
/// that files name, the length of the name in bytes and both counts fit the
/// integer they are written as, and there is one reserved value for each
/// instruction.
pub open spec fn encodable(version: Version, solution: SolutionView, reserved: Seq<i32>) -> bool {
    &&& version != Version::Unknown
    &&& encode_utf8(solution.name).len() <= i32::MAX
    &&& solution.parts.len() <= i32::MAX
    &&& solution.instructions.len() <= i32::MAX
    &&& reserved.len() == solution.instructions.len()
}

/// Whether `s` holds the bytes of `piece` from `pos` on.
spec fn holds_at(s: Seq<u8>, pos: int, piece: Seq<u8>) -> bool {
    has_bytes(s, pos, piece.len() as int) && s.subrange(pos, pos + piece.len()) == piece
}

/// Where two pieces are held in a row, each of them is held.
proof fn lemma_holds_both(s: Seq<u8>, pos: int, a: Seq<u8>, b: Seq<u8>)
    requires
        holds_at(s, pos, a + b),
    ensures
        holds_at(s, pos, a),
        holds_at(s, pos + a.len(), b),
{
    let whole = s.subrange(pos, pos + (a + b).len());
    assert forall|i: int| 0 <= i < a.len() implies #[trigger] s.subrange(pos, pos + a.len())[i]
        == a[i] by {
        assert(whole[i] == (a + b)[i]);
    }
    assert(s.subrange(pos, pos + a.len()) =~= a);
    assert forall|i: int| 0 <= i < b.len() implies #[trigger] s.subrange(
        pos + a.len(),
        pos + a.len() + b.len(),
    )[i] == b[i] by {
        assert(whole[a.len() + i] == (a + b)[a.len() + i]);
    }
    assert(s.subrange(pos + a.len(), pos + a.len() + b.len()) =~= b);
}

/// The four bytes of an integer stand for that integer.
pub proof fn lemma_i32_bytes(v: i32)
    ensures
        i32_bytes(v).len() == 4,
        le_i32(i32_bytes(v)[0], i32_bytes(v)[1], i32_bytes(v)[2], i32_bytes(v)[3]) == v,
{
    reveal(i32_bytes);
}

/// Where the bytes of an integer are held, that integer is read.
proof fn lemma_word_held(s: Seq<u8>, pos: int, v: i32)
    requires
        holds_at(s, pos, i32_bytes(v)),
    ensures
        has_bytes(s, pos, 4),
        word_at(s, pos) == v,
{
    lemma_i32_bytes(v);
    let held = s.subrange(pos, pos + 4);
    assert(held[0] == s[pos] && held[1] == s[pos + 1] && held[2] == s[pos + 2] && held[3] == s[pos
        + 3]);
}

/// Where the byte of a flag is held, that flag is read.
proof fn lemma_bool_held(s: Seq<u8>, pos: int, b: bool)
    requires
        holds_at(s, pos, bool_bytes(b)),
    ensures
        has_bytes(s, pos, 1),
        (s[pos] == 1) == b,
{
    assert(s.subrange(pos, pos + 1)[0] == s[pos]);
}

/// Where a written text is held, that text is read.
proof fn lemma_string_held(s: Seq<u8>, pos: int, text: Seq<char>)
    requires
        encode_utf8(text).len() <= i32::MAX,
        holds_at(s, pos, string_bytes(text)),
    ensures
        string_at(s, pos) == Ok::<(Seq<char>, int), KaizenError>(
            (text, pos + string_bytes(text).len()),
        ),
        string_bytes(text).len() == 4 + encode_utf8(text).len(),
{
    let len = encode_utf8(text).len();
    lemma_i32_bytes(len as i32);
    lemma_holds_both(s, pos, i32_bytes(len as i32), encode_utf8(text));
    lemma_word_held(s, pos, len as i32);
    encode_utf8_valid_utf8(text);
    encode_utf8_decode_utf8(text);
}

/// Where a written part is held, that part is read.
proof fn lemma_part_held(s: Seq<u8>, pos: int, part: Part)
    requires
        holds_at(s, pos, part_bytes(part)),
    ensures
        part_bytes(part).len() == part_size(),
        part_at(s, pos) == Ok::<(Part, int), KaizenError>((part, pos + part_size())),
{
    let kind = i32_bytes(part.kind.code());
    let arm = i32_bytes(part.arm);
    let x = i32_bytes(part.pos.x);
    let y = i32_bytes(part.pos.y);
    let w = i32_bytes(part.size.x);
    let h = i32_bytes(part.size.y);
    let input = i32_bytes(part.input);
    lemma_i32_bytes(part.kind.code());
    lemma_i32_bytes(part.arm);
    lemma_i32_bytes(part.pos.x);
    lemma_i32_bytes(part.pos.y);
    lemma_i32_bytes(part.size.x);
    lemma_i32_bytes(part.size.y);
    lemma_i32_bytes(part.input);
    lemma_holds_both(s, pos, kind + arm + x + y + w + h, input);
    lemma_holds_both(s, pos, kind + arm + x + y + w, h);
    lemma_holds_both(s, pos, kind + arm + x + y, w);
    lemma_holds_both(s, pos, kind + arm + x, y);
    lemma_holds_both(s, pos, kind + arm, x);
    lemma_holds_both(s, pos, kind, arm);
    lemma_word_held(s, pos, part.kind.code());
    lemma_word_held(s, pos + 4, part.arm);
    lemma_word_held(s, pos + 8, part.pos.x);
    lemma_word_held(s, pos + 12, part.pos.y);
    lemma_word_held(s, pos + 16, part.size.x);
    lemma_word_held(s, pos + 20, part.size.y);
    lemma_word_held(s, pos + 24, part.input);
}

/// Written parts take the size of one part each.
proof fn lemma_parts_bytes_len(parts: Seq<Part>)
    ensures
        parts_bytes(parts).len() == parts.len() * part_size(),
    decreases parts.len(),
{
    if parts.len() > 0 {
        lemma_parts_bytes_len(parts.drop_last());
        lemma_i32_bytes(parts.last().kind.code());
        lemma_i32_bytes(parts.last().arm);
        lemma_i32_bytes(parts.last().pos.x);
        lemma_i32_bytes(parts.last().pos.y);
        lemma_i32_bytes(parts.last().size.x);
        lemma_i32_bytes(parts.last().size.y);
        lemma_i32_bytes(parts.last().input);
    }
}

/// Where written parts are held, those parts are read.
proof fn lemma_parts_held(s: Seq<u8>, pos: int, parts: Seq<Part>)
    requires
        holds_at(s, pos, parts_bytes(parts)),
    ensures
        parts_at(s, pos, parts.len()) == Ok::<(Seq<Part>, int), KaizenError>(
            (parts, pos + parts.len() * part_size()),
        ),
    decreases parts.len(),
{
    if parts.len() > 0 {
        let before = parts.drop_last();
        lemma_holds_both(s, pos, parts_bytes(before), part_bytes(parts.last()));
        lemma_parts_bytes_len(before);
        lemma_parts_held(s, pos, before);
        lemma_part_held(s, pos + before.len() * part_size(), parts.last());
        assert(before.push(parts.last()) =~= parts);
    } else {
        assert(parts =~= Seq::empty());
    }
}

/// Where a written list of parts is held, those parts are read.
proof fn lemma_part_list_held(s: Seq<u8>, pos: int, parts: Seq<Part>)
    requires
        parts.len() <= i32::MAX,
        holds_at(s, pos, part_list_bytes(parts)),
    ensures
        part_list_bytes(parts).len() == 4 + parts.len() * part_size(),
        part_list_at(s, pos) == Ok::<(Seq<Part>, int), KaizenError>(
            (parts, pos + part_list_bytes(parts).len()),
        ),
{
    lemma_i32_bytes(parts.len() as i32);
    lemma_parts_bytes_len(parts);
    lemma_holds_both(s, pos, i32_bytes(parts.len() as i32), parts_bytes(parts));
    lemma_word_held(s, pos, parts.len() as i32);
    lemma_parts_held(s, pos + 4, parts);
}

/// Where a written instruction is held, that instruction is read under the
/// version it was written for.
proof fn lemma_instruction_held(
    s: Seq<u8>,
    pos: int,
    instruction: Instruction,
    version: Version,
    reserved: i32,
)
    requires
        holds_at(s, pos, instruction_bytes(instruction, version, reserved)),
    ensures
        instruction_bytes(instruction, version, reserved).len() == instruction_size(version),
        instruction_at(s, pos, version) == Ok::<(Instruction, int), KaizenError>(
            (instruction, pos + instruction_size(version)),
        ),
{
    let column = i32_bytes(instruction.column);
    let row = i32_bytes(instruction.row);
    let kind = i32_bytes(instruction.kind.code());
    let arm = i32_bytes(instruction.arm);
    let distance = i32_bytes(instruction.distance);
    let grab = bool_bytes(instruction.grab);
    lemma_instruction_bytes_len(instruction, version, reserved);
    lemma_i32_bytes(instruction.column);
    lemma_i32_bytes(instruction.row);
    lemma_i32_bytes(instruction.kind.code());
    lemma_i32_bytes(instruction.arm);
    lemma_i32_bytes(instruction.distance);
    if version == Version::V2 {
        lemma_holds_both(
            s,
            pos,
            column + row + kind + arm + distance + grab,
            i32_bytes(reserved),
        );
    }
    lemma_holds_both(s, pos, column + row + kind + arm + distance, grab);
    lemma_holds_both(s, pos, column + row + kind + arm, distance);
    lemma_holds_both(s, pos, column + row + kind, arm);
    lemma_holds_both(s, pos, column + row, kind);
    lemma_holds_both(s, pos, column, row);
    lemma_word_held(s, pos, instruction.column);
    lemma_word_held(s, pos + 4, instruction.row);
    lemma_word_held(s, pos + 8, instruction.kind.code());
    lemma_word_held(s, pos + 12, instruction.arm);
    lemma_word_held(s, pos + 16, instruction.distance);
    lemma_bool_held(s, pos + 20, instruction.grab);
}

/// A written instruction takes the size that its version gives it.
proof fn lemma_instruction_bytes_len(instruction: Instruction, version: Version, reserved: i32)
    ensures
        instruction_bytes(instruction, version, reserved).len() == instruction_size(version),
{
    lemma_i32_bytes(instruction.column);
    lemma_i32_bytes(instruction.row);
    lemma_i32_bytes(instruction.kind.code());
    lemma_i32_bytes(instruction.arm);
    lemma_i32_bytes(instruction.distance);
    lemma_i32_bytes(reserved);
}

/// Written instructions take the size of one instruction each.
proof fn lemma_instructions_bytes_len(
    instructions: Seq<Instruction>,
    version: Version,
    reserved: Seq<i32>,
)
    requires
        instructions.len() <= reserved.len(),
    ensures
        instructions_bytes(instructions, version, reserved).len() == instructions_size(
            version,
            instructions.len(),
        ),
    decreases instructions.len(),
{
    if instructions.len() > 0 {
        lemma_instructions_bytes_len(instructions.drop_last(), version, reserved);
        lemma_instruction_bytes_len(
            instructions.last(),
            version,
            reserved[instructions.len() - 1],
        );
    }
}

/// Where written instructions are held, those instructions are read.
proof fn lemma_instructions_held(
    s: Seq<u8>,
    pos: int,
    instructions: Seq<Instruction>,
    version: Version,
    reserved: Seq<i32>,
)
    requires
        instructions.len() <= reserved.len(),
        holds_at(s, pos, instructions_bytes(instructions, version, reserved)),
    ensures
        instructions_at(s, pos, instructions.len(), version) == Ok::<
            (Seq<Instruction>, int),
            KaizenError,
        >((instructions, pos + instructions_size(version, instructions.len()))),
    decreases instructions.len(),
{
    if instructions.len() > 0 {
        let before = instructions.drop_last();
        let last = instructions.last();
        let word = reserved[instructions.len() - 1];
        lemma_holds_both(
            s,
            pos,
            instructions_bytes(before, version, reserved),
            instruction_bytes(last, version, word),
        );
        lemma_instructions_bytes_len(before, version, reserved);
        lemma_instructions_held(s, pos, before, version, reserved);
        lemma_instruction_held(
            s,
            pos + instructions_size(version, before.len()),
            last,
            version,
            word,
        );
        assert(before.push(last) =~= instructions);
    } else {
        assert(instructions =~= Seq::empty());
    }
}

/// Where a written list of instructions is held, those instructions are
/// read.
proof fn lemma_instruction_list_held(
    s: Seq<u8>,
    pos: int,
    instructions: Seq<Instruction>,
    version: Version,
    reserved: Seq<i32>,
)
    requires
        instructions.len() <= i32::MAX,
        instructions.len() <= reserved.len(),
        holds_at(s, pos, instruction_list_bytes(instructions, version, reserved)),
    ensures
        instruction_list_at(s, pos, version) == Ok::<(Seq<Instruction>, int), KaizenError>(
            (instructions, pos + instruction_list_bytes(instructions, version, reserved).len()),
        ),
{
    lemma_i32_bytes(instructions.len() as i32);
    lemma_instructions_bytes_len(instructions, version, reserved);
    lemma_holds_both(
        s,
        pos,
        i32_bytes(instructions.len() as i32),
        instructions_bytes(instructions, version, reserved),
    );
    lemma_word_held(s, pos, instructions.len() as i32);
    lemma_instructions_held(s, pos + 4, instructions, version, reserved);
}

/// Where a written header is held, each of its fields is held at its place.
proof fn lemma_header_fields_held(s: Seq<u8>, pos: int, header: Header)
    requires
        holds_at(s, pos, header_bytes(header)),
    ensures
        header_bytes(header).len() == 21 + string_bytes(header.name).len(),
        holds_at(s, pos, i32_bytes(header.version.code())),
        holds_at(s, pos + 4, i32_bytes(header.level)),
        holds_at(s, pos + 8, string_bytes(header.name)),
        holds_at(s, pos + 8 + string_bytes(header.name).len(), bool_bytes(header.solved)),
        holds_at(s, pos + 9 + string_bytes(header.name).len(), i32_bytes(header.time)),
        holds_at(s, pos + 13 + string_bytes(header.name).len(), i32_bytes(header.cost)),
        holds_at(s, pos + 17 + string_bytes(header.name).len(), i32_bytes(header.area)),
{
    let version = i32_bytes(header.version.code());
    let level = i32_bytes(header.level);
    let name = string_bytes(header.name);
    let solved = bool_bytes(header.solved);
    let time = i32_bytes(header.time);
    let cost = i32_bytes(header.cost);
    let area = i32_bytes(header.area);
    lemma_i32_bytes(header.version.code());
    lemma_i32_bytes(header.level);
    lemma_i32_bytes(header.time);
    lemma_i32_bytes(header.cost);
    lemma_i32_bytes(header.area);
    lemma_holds_both(s, pos, version + level + name + solved + time + cost, area);
    lemma_holds_both(s, pos, version + level + name + solved + time, cost);
    lemma_holds_both(s, pos, version + level + name + solved, time);
    lemma_holds_both(s, pos, version + level + name, solved);
    lemma_holds_both(s, pos, version + level, name);
    lemma_holds_both(s, pos, version, level);
}

/// Where a written header is held, that header is read.
proof fn lemma_header_held(s: Seq<u8>, pos: int, header: Header)
    requires
        header.version != Version::Unknown,
        encode_utf8(header.name).len() <= i32::MAX,
        holds_at(s, pos, header_bytes(header)),
    ensures
        header_at(s, pos) == Ok::<(Header, int), KaizenError>(
            (header, pos + header_bytes(header).len()),
        ),
{
    lemma_header_fields_held(s, pos, header);
    lemma_word_held(s, pos, header.version.code());
    lemma_word_held(s, pos + 4, header.level);
    lemma_string_held(s, pos + 8, header.name);
    let next = pos + 8 + string_bytes(header.name).len();
    lemma_bool_held(s, next, header.solved);
    lemma_word_held(s, next + 1, header.time);
    lemma_word_held(s, next + 5, header.cost);
    lemma_word_held(s, next + 9, header.area);
}

/// Decoding undoes encoding: a solution written under a version that files
/// name, whatever stands in the reserved fields, is decoded to that same
/// solution, field by field.
pub proof fn lemma_decode_encode(version: Version, solution: SolutionView, reserved: Seq<i32>)
    requires
        encodable(version, solution, reserved),
    ensures
        decode(encode(version, solution, reserved)) == Ok::<SolutionView, KaizenError>(solution),
{
    let s = encode(version, solution, reserved);
    let header = header_of(version, solution);
    let head = header_bytes(header);
    let parts = part_list_bytes(solution.parts);
    let instructions = instruction_list_bytes(solution.instructions, version, reserved);
    assert(s.subrange(0, s.len() as int) =~= s);
    lemma_holds_both(s, 0, head + parts, instructions);
    lemma_holds_both(s, 0, head, parts);
    lemma_header_held(s, 0, header);
    lemma_part_list_held(s, head.len() as int, solution.parts);
    lemma_instruction_list_held(
        s,
        (head + parts).len() as int,
        solution.instructions,
        version,
        reserved,
    );
}

} // verus!
