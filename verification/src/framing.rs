//! What the layout does with a file that was cut short, that carries bytes
//! behind its end, or that holds a code which stands for nothing.
//!
//! Decoding looks at a byte only after all bytes before it. So two byte
//! sequences of which one starts with the other are decoded alike for as
//! long as both have bytes, and the shorter one fails where it ends.

use crate::codes::{InstructionKind, ParseEnum, PartKind, Version};
use crate::error::KaizenError;
use crate::format::{
    decode, enum_at, has_bytes, header_at, instruction_at, instruction_list_at,
    instructions_at, instructions_size, len_at, part_at, part_list_at, part_size, parts_at,
    string_at, text_at, word_at,
};
use crate::solution::{Instruction, Part, SolutionView};
use vstd::prelude::*;

verus! {

/// Whether `s` and `t` hold the same byte wherever both hold one: one of
/// them starts with the other.
pub open spec fn agree(s: Seq<u8>, t: Seq<u8>) -> bool {
    forall|i: int|
        #![trigger s[i]]
        #![trigger t[i]]
        0 <= i < s.len() && i < t.len() ==> s[i] == t[i]
}

/// How the outcome of reading a field of `t` follows from the outcome of
/// reading it at the same place of a sequence that agrees with `t`: a field
/// that was read there is read alike if it ends within `t`, and fails as cut
/// short if it does not.
spec fn carried<T>(
    on_s: Result<(T, int), KaizenError>,
    on_t: Result<(T, int), KaizenError>,
    t_len: nat,
) -> bool {
    match on_s {
        Ok((_, end)) => if end <= t_len {
            on_t == on_s
        } else {
            on_t == Err::<(T, int), KaizenError>(KaizenError::CorruptedFile)
        },
        Err(_) => true,
    }
}

/// Once a part record has failed, every longer run of records fails alike.
pub proof fn lemma_parts_at_stays_failed(s: Seq<u8>, pos: int, k: nat, n: nat)
    requires
        k <= n,
        parts_at(s, pos, k) is Err,
    ensures
        parts_at(s, pos, n) == parts_at(s, pos, k),
    decreases n,
{
    if k < n {
        lemma_parts_at_stays_failed(s, pos, k, (n - 1) as nat);
    }
}

/// Once an instruction record has failed, every longer run of records fails
/// alike.
pub proof fn lemma_instructions_at_stays_failed(
    s: Seq<u8>,
    pos: int,
    k: nat,
    n: nat,
    version: Version,
)
    requires
        k <= n,
        instructions_at(s, pos, k, version) is Err,
    ensures
        instructions_at(s, pos, n, version) == instructions_at(s, pos, k, version),
    decreases n,
{
    if k < n {
        lemma_instructions_at_stays_failed(s, pos, k, (n - 1) as nat, version);
    }
}

/// An integer that both sequences hold in full is the same in both.
proof fn lemma_word_agrees(s: Seq<u8>, t: Seq<u8>, pos: int)
    requires
        agree(s, t),
        has_bytes(s, pos, 4),
        has_bytes(t, pos, 4),
    ensures
        word_at(s, pos) == word_at(t, pos),
{
    assert(s[pos] == t[pos]);
    assert(s[pos + 1] == t[pos + 1]);
    assert(s[pos + 2] == t[pos + 2]);
    assert(s[pos + 3] == t[pos + 3]);
}

/// A code is carried over.
proof fn lemma_enum_carried<T: ParseEnum<i32>>(s: Seq<u8>, t: Seq<u8>, pos: int)
    requires
        agree(s, t),
    ensures
        carried(enum_at::<T>(s, pos), enum_at::<T>(t, pos), t.len()),
{
    if has_bytes(s, pos, 4) && has_bytes(t, pos, 4) {
        lemma_word_agrees(s, t, pos);
    }
}

/// A count is carried over.
proof fn lemma_len_carried(s: Seq<u8>, t: Seq<u8>, pos: int)
    requires
        agree(s, t),
    ensures
        carried(len_at(s, pos), len_at(t, pos), t.len()),
{
    if has_bytes(s, pos, 4) && has_bytes(t, pos, 4) {
        lemma_word_agrees(s, t, pos);
    }
}

/// A text of a given length is carried over.
proof fn lemma_text_carried(s: Seq<u8>, t: Seq<u8>, pos: int, len: nat)
    requires
        agree(s, t),
    ensures
        carried(text_at(s, pos, len), text_at(t, pos, len), t.len()),
{
    if has_bytes(s, pos, len as int) && has_bytes(t, pos, len as int) {
        let in_s = s.subrange(pos, pos + len);
        let in_t = t.subrange(pos, pos + len);
        assert forall|i: int| 0 <= i < len implies #[trigger] in_s[i] == in_t[i] by {
            assert(s[pos + i] == t[pos + i]);
        }
        assert(in_s =~= in_t);
    }
}

/// A text behind its length is carried over.
proof fn lemma_string_carried(s: Seq<u8>, t: Seq<u8>, pos: int)
    requires
        agree(s, t),
    ensures
        carried(string_at(s, pos), string_at(t, pos), t.len()),
{
    lemma_len_carried(s, t, pos);
    if let Ok((len, start)) = len_at(s, pos) {
        lemma_text_carried(s, t, start, len);
    }
}

/// A part record is carried over.
proof fn lemma_part_carried(s: Seq<u8>, t: Seq<u8>, pos: int)
    requires
        agree(s, t),
    ensures
        carried(part_at(s, pos), part_at(t, pos), t.len()),
{
    lemma_enum_carried::<PartKind>(s, t, pos);
    if part_at(s, pos) is Ok && has_bytes(t, pos, 28) {
        lemma_word_agrees(s, t, pos + 4);
        lemma_word_agrees(s, t, pos + 8);
        lemma_word_agrees(s, t, pos + 12);
        lemma_word_agrees(s, t, pos + 16);
        lemma_word_agrees(s, t, pos + 20);
        lemma_word_agrees(s, t, pos + 24);
    }
}

/// A run of `n` part records that was read holds `n` parts in `n` times the
/// size of one.
pub proof fn lemma_parts_extent(s: Seq<u8>, pos: int, n: nat)
    ensures
        parts_at(s, pos, n) matches Ok((parts, end)) ==> parts.len() == n && end == pos + n
            * part_size(),
    decreases n,
{
    if n > 0 {
        lemma_parts_extent(s, pos, (n - 1) as nat);
    }
}

/// A run of `n` instruction records that was read holds `n` instructions in
/// `n` times the size of one.
pub proof fn lemma_instructions_extent(s: Seq<u8>, pos: int, n: nat, version: Version)
    ensures
        instructions_at(s, pos, n, version) matches Ok((instructions, end)) ==> instructions.len()
            == n && end == pos + instructions_size(version, n),
    decreases n,
{
    if n > 0 {
        lemma_instructions_extent(s, pos, (n - 1) as nat, version);
    }
}

/// A run of part records is carried over.
proof fn lemma_parts_carried(s: Seq<u8>, t: Seq<u8>, pos: int, n: nat)
    requires
        agree(s, t),
        pos <= t.len(),
    ensures
        carried(parts_at(s, pos, n), parts_at(t, pos, n), t.len()),
    decreases n,
{
    if n > 0 {
        lemma_parts_carried(s, t, pos, (n - 1) as nat);
        if let Ok((_, next)) = parts_at(s, pos, (n - 1) as nat) {
            lemma_part_carried(s, t, next);
        }
    }
}

/// The parts of a file are carried over.
proof fn lemma_part_list_carried(s: Seq<u8>, t: Seq<u8>, pos: int)
    requires
        agree(s, t),
    ensures
        carried(part_list_at(s, pos), part_list_at(t, pos), t.len()),
{
    lemma_len_carried(s, t, pos);
    if let Ok((n, start)) = len_at(s, pos) {
        lemma_parts_extent(s, start, n);
        if start <= t.len() {
            lemma_parts_carried(s, t, start, n);
        }
    }
}

/// An instruction record is carried over.
proof fn lemma_instruction_carried(s: Seq<u8>, t: Seq<u8>, pos: int, version: Version)
    requires
        agree(s, t),
    ensures
        carried(instruction_at(s, pos, version), instruction_at(t, pos, version), t.len()),
{
    lemma_enum_carried::<InstructionKind>(s, t, pos + 8);
    if instruction_at(s, pos, version) is Ok && has_bytes(t, pos, 21) {
        lemma_word_agrees(s, t, pos);
        lemma_word_agrees(s, t, pos + 4);
        lemma_word_agrees(s, t, pos + 12);
        lemma_word_agrees(s, t, pos + 16);
        assert(s[pos + 20] == t[pos + 20]);
    }
}

/// A run of instruction records is carried over.
proof fn lemma_instructions_carried(
    s: Seq<u8>,
    t: Seq<u8>,
    pos: int,
    n: nat,
    version: Version,
)
    requires
        agree(s, t),
        pos <= t.len(),
    ensures
        carried(
            instructions_at(s, pos, n, version),
            instructions_at(t, pos, n, version),
            t.len(),
        ),
    decreases n,
{
    if n > 0 {
        lemma_instructions_carried(s, t, pos, (n - 1) as nat, version);
        if let Ok((_, next)) = instructions_at(s, pos, (n - 1) as nat, version) {
            lemma_instruction_carried(s, t, next, version);
        }
    }
}

/// The instructions of a file are carried over.
proof fn lemma_instruction_list_carried(s: Seq<u8>, t: Seq<u8>, pos: int, version: Version)
    requires
        agree(s, t),
    ensures
        carried(
            instruction_list_at(s, pos, version),
            instruction_list_at(t, pos, version),
            t.len(),
        ),
{
    lemma_len_carried(s, t, pos);
    if let Ok((n, start)) = len_at(s, pos) {
        lemma_instructions_extent(s, start, n, version);
        if start <= t.len() {
            lemma_instructions_carried(s, t, start, n, version);
        }
    }
}

/// The header of a file is carried over.
proof fn lemma_header_carried(s: Seq<u8>, t: Seq<u8>, pos: int)
    requires
        agree(s, t),
    ensures
        carried(header_at(s, pos), header_at(t, pos), t.len()),
{
    lemma_enum_carried::<Version>(s, t, pos);
    lemma_string_carried(s, t, pos + 8);
    if let Ok((_, next)) = string_at(s, pos + 8) {
        if header_at(s, pos) is Ok && has_bytes(t, next, 13) {
            lemma_word_agrees(s, t, pos + 4);
            assert(s[next] == t[next]);
            lemma_word_agrees(s, t, next + 1);
            lemma_word_agrees(s, t, next + 5);
            lemma_word_agrees(s, t, next + 9);
        }
    }
}

/// A byte sequence that decodes is the only one of its length among those
/// that agree with it: a shorter or longer one is corrupted.
pub proof fn lemma_other_length_is_corrupted(s: Seq<u8>, t: Seq<u8>)
    requires
        agree(s, t),
        decode(s) is Ok,
        t.len() != s.len(),
    ensures
        decode(t) == Err::<SolutionView, KaizenError>(KaizenError::CorruptedFile),
{
    lemma_header_carried(s, t, 0);
    let (header, parts_pos) = header_at(s, 0)->Ok_0;
    lemma_part_list_carried(s, t, parts_pos);
    let (_, instructions_pos) = part_list_at(s, parts_pos)->Ok_0;
    lemma_instruction_list_carried(s, t, instructions_pos, header.version);
    lemma_positions_grow(s);
}

/// Each section of a file that decodes ends no earlier than it starts.
proof fn lemma_positions_grow(s: Seq<u8>)
    requires
        decode(s) is Ok,
    ensures
        ({
            let (header, parts_pos) = header_at(s, 0)->Ok_0;
            let (_, instructions_pos) = part_list_at(s, parts_pos)->Ok_0;
            let (_, end) = instruction_list_at(s, instructions_pos, header.version)->Ok_0;
            0 <= parts_pos <= instructions_pos <= end
        }),
{
    let (header, parts_pos) = header_at(s, 0)->Ok_0;
    let (n, start) = len_at(s, parts_pos)->Ok_0;
    lemma_parts_extent(s, start, n);
    let (_, instructions_pos) = part_list_at(s, parts_pos)->Ok_0;
    let (m, first) = len_at(s, instructions_pos)->Ok_0;
    lemma_instructions_extent(s, first, m, header.version);
}

/// A file that decodes, cut off anywhere before its end, is corrupted.
pub proof fn lemma_truncated_is_corrupted(s: Seq<u8>, n: int)
    requires
        decode(s) is Ok,
        0 <= n < s.len(),
    ensures
        decode(s.take(n)) == Err::<SolutionView, KaizenError>(
            KaizenError::CorruptedFile,
        ),
{
    lemma_other_length_is_corrupted(s, s.take(n));
}

/// A file that decodes, with one more byte behind it, is corrupted.
pub proof fn lemma_extended_is_corrupted(s: Seq<u8>, extra: u8)
    requires
        decode(s) is Ok,
    ensures
        decode(s.push(extra)) == Err::<SolutionView, KaizenError>(
            KaizenError::CorruptedFile,
        ),
{
    lemma_other_length_is_corrupted(s, s.push(extra));
}

/// A file whose first integer is neither 10 nor 11 fails with that integer
/// as an unknown version.
pub proof fn lemma_unknown_version(s: Seq<u8>)
    requires
        s.len() >= 4,
        word_at(s, 0) != 10,
        word_at(s, 0) != 11,
    ensures
        decode(s) == Err::<SolutionView, KaizenError>(
            KaizenError::UnknownVersion(word_at(s, 0)),
        ),
{
}

/// Whether decoding `s` gets as far as part record number `k`, counted from
/// 0, and finds it at `at`: the header, the count of parts and the `k`
/// records before it are read, and the count is above `k`.
pub open spec fn reaches_part(s: Seq<u8>, k: nat, at: int) -> bool {
    &&& header_at(s, 0) matches Ok((_, parts_pos))
    &&& len_at(s, parts_pos) matches Ok((n, start))
    &&& k < n
    &&& parts_at(s, start, k) matches Ok((_, next))
    &&& next == at
}

/// Whether decoding `s` gets as far as instruction record number `k`,
/// counted from 0, and finds it at `at`: the header, the parts, the count of
/// instructions and the `k` records before it are read, and the count is
/// above `k`.
pub open spec fn reaches_instruction(s: Seq<u8>, k: nat, at: int) -> bool {
    &&& header_at(s, 0) matches Ok((header, parts_pos))
    &&& part_list_at(s, parts_pos) matches Ok((_, instructions_pos))
    &&& len_at(s, instructions_pos) matches Ok((n, start))
    &&& k < n
    &&& instructions_at(s, start, k, header.version) matches Ok((_, next))
    &&& next == at
}

/// A file in which a part record starts with a code that stands for no part
/// kind fails with that code as an unknown part, whatever follows the code.
pub proof fn lemma_unknown_part(s: Seq<u8>, k: nat, at: int)
    requires
        reaches_part(s, k, at),
        has_bytes(s, at, 4),
        PartKind::from_code(word_at(s, at)) is Err,
    ensures
        decode(s) == Err::<SolutionView, KaizenError>(
            KaizenError::UnknownPart(word_at(s, at)),
        ),
{
    let (_, parts_pos) = header_at(s, 0)->Ok_0;
    let (n, start) = len_at(s, parts_pos)->Ok_0;
    assert(parts_at(s, start, k + 1) == Err::<(Seq<Part>, int), KaizenError>(
        KaizenError::UnknownPart(word_at(s, at)),
    ));
    lemma_parts_at_stays_failed(s, start, k + 1, n);
}

/// A file in which an instruction record holds a code that stands for no
/// instruction kind fails with that code as an unknown instruction,
/// whatever follows the code.
pub proof fn lemma_unknown_instruction(s: Seq<u8>, k: nat, at: int)
    requires
        reaches_instruction(s, k, at),
        has_bytes(s, at, 12),
        InstructionKind::from_code(word_at(s, at + 8)) is Err,
    ensures
        decode(s) == Err::<SolutionView, KaizenError>(
            KaizenError::UnknownInstruction(word_at(s, at + 8)),
        ),
{
    let (header, parts_pos) = header_at(s, 0)->Ok_0;
    let (_, instructions_pos) = part_list_at(s, parts_pos)->Ok_0;
    let (n, start) = len_at(s, instructions_pos)->Ok_0;
    assert(instructions_at(s, start, k + 1, header.version) == Err::<
        (Seq<Instruction>, int),
        KaizenError,
    >(KaizenError::UnknownInstruction(word_at(s, at + 8))));
    lemma_instructions_at_stays_failed(s, start, k + 1, n, header.version);
}

} // verus!
