use kaizensim::codes::{InstructionKind, PartKind, Version};
use kaizensim::error::KaizenError;
use kaizensim::point::Point;
use kaizensim::reader::{i32_from_le, SolutionReader};
use kaizensim::solution::{Instruction, Part};

fn ints(values: &[i32]) -> Vec<u8> {
    let mut bytes = Vec::new();
    for v in values {
        bytes.extend_from_slice(&v.to_le_bytes());
    }
    bytes
}

#[test]
fn four_bytes_make_an_integer_lowest_byte_first() {
    assert_eq!(i32_from_le(0x78, 0x56, 0x34, 0x12), 0x1234_5678);
    assert_eq!(i32_from_le(1, 0, 0, 0), 1);
    assert_eq!(i32_from_le(0, 1, 0, 0), 256);
    assert_eq!(i32_from_le(0, 0, 1, 0), 65536);
    assert_eq!(i32_from_le(0, 0, 0, 1), 16_777_216);
    assert_eq!(i32_from_le(0xff, 0xff, 0xff, 0xff), -1);
    assert_eq!(i32_from_le(0xff, 0xff, 0xff, 0x7f), i32::MAX);
    assert_eq!(i32_from_le(0, 0, 0, 0x80), i32::MIN);
    assert_eq!(i32_from_le(0xfe, 0xff, 0xff, 0xff), -2);
}

#[test]
fn integers_from_bytes_match_the_machine() {
    for v in [0, 1, -1, 255, 256, -256, 4096, -4097, 1 << 24, i32::MAX, i32::MIN, 0x0102_0304] {
        let b = i32::to_le_bytes(v);
        assert_eq!(i32_from_le(b[0], b[1], b[2], b[3]), v);
    }
}

#[test]
fn read_bytes_takes_bytes_in_order() {
    let data = [1u8, 2, 3, 4, 5];
    let mut reader = SolutionReader::from(&data);
    assert_eq!(reader.read_bytes::<2>(), Ok([1, 2]));
    assert_eq!(reader.read_bytes::<0>(), Ok([]));
    assert_eq!(reader.read_bytes::<3>(), Ok([3, 4, 5]));
    assert_eq!(reader.read_bytes::<0>(), Ok([]));
    assert_eq!(reader.read_bytes::<1>(), Err(KaizenError::CorruptedFile));
}

#[test]
fn read_bytes_fails_when_too_few_are_left() {
    let data = [1u8, 2, 3];
    let mut reader = SolutionReader::from(&data);
    assert_eq!(reader.read_bytes::<4>(), Err(KaizenError::CorruptedFile));
}

#[test]
fn read_bool_is_true_only_for_one() {
    let data = [1u8, 0, 2, 255];
    let mut reader = SolutionReader::from(&data);
    assert_eq!(reader.read_bool(), Ok(true));
    assert_eq!(reader.read_bool(), Ok(false));
    assert_eq!(reader.read_bool(), Ok(false));
    assert_eq!(reader.read_bool(), Ok(false));
    assert_eq!(reader.read_bool(), Err(KaizenError::CorruptedFile));
}

#[test]
fn read_i32_reads_one_integer_after_the_other() {
    let data = ints(&[7, -7, i32::MIN]);
    let mut reader = SolutionReader::from(&data);
    assert_eq!(reader.read_i32(), Ok(7));
    assert_eq!(reader.read_i32(), Ok(-7));
    assert_eq!(reader.read_i32(), Ok(i32::MIN));
    assert_eq!(reader.read_i32(), Err(KaizenError::CorruptedFile));
}

#[test]
fn read_i32_needs_four_bytes() {
    let data = [1u8, 0, 0];
    let mut reader = SolutionReader::from(&data);
    assert_eq!(reader.read_i32(), Err(KaizenError::CorruptedFile));
}

#[test]
fn read_usize_rejects_a_negative_count() {
    let data = ints(&[0, 5, i32::MAX, -1]);
    let mut reader = SolutionReader::from(&data);
    assert_eq!(reader.read_usize(), Ok(0));
    assert_eq!(reader.read_usize(), Ok(5));
    assert_eq!(reader.read_usize(), Ok(i32::MAX as usize));
    assert_eq!(reader.read_usize(), Err(KaizenError::CorruptedFile));
}

#[test]
fn read_point_reads_x_before_y() {
    let data = ints(&[3, -4, 9]);
    let mut reader = SolutionReader::from(&data);
    assert_eq!(reader.read_point(), Ok(Point { x: 3, y: -4 }));
    assert_eq!(reader.read_point(), Err(KaizenError::CorruptedFile));
}

#[test]
fn read_enum_maps_a_code_or_names_it() {
    let data = ints(&[8, 7, 11, 2, 5]);
    let mut reader = SolutionReader::from(&data);
    assert_eq!(reader.read_enum::<PartKind>(), Ok(PartKind::Drill));
    assert_eq!(reader.read_enum::<PartKind>(), Err(KaizenError::UnknownPart(7)));
    assert_eq!(reader.read_enum::<Version>(), Ok(Version::V2));
    assert_eq!(reader.read_enum::<InstructionKind>(), Ok(InstructionKind::Slide));
    assert_eq!(reader.read_enum::<InstructionKind>(), Err(KaizenError::UnknownInstruction(5)));
    assert_eq!(reader.read_enum::<Version>(), Err(KaizenError::CorruptedFile));
}

#[test]
fn read_string_reads_a_length_and_then_the_text() {
    let mut data = ints(&[5]);
    data.extend_from_slice(b"hello");
    data.extend_from_slice(&ints(&[0]));
    data.extend_from_slice(&ints(&[3]));
    data.extend_from_slice(b"ab");
    let mut reader = SolutionReader::from(&data);
    assert_eq!(reader.read_string(), Ok(String::from("hello")));
    assert_eq!(reader.read_string(), Ok(String::new()));
    assert_eq!(reader.read_string(), Err(KaizenError::CorruptedFile));
}

#[test]
fn read_string_decodes_utf8() {
    let text = "Grüße, 世界 🙂";
    let mut data = ints(&[text.len() as i32]);
    data.extend_from_slice(text.as_bytes());
    let mut reader = SolutionReader::from(&data);
    assert_eq!(reader.read_string(), Ok(String::from(text)));
}

#[test]
fn read_string_rejects_a_negative_length() {
    let mut data = ints(&[-1]);
    data.extend_from_slice(b"hello");
    let mut reader = SolutionReader::from(&data);
    assert_eq!(reader.read_string(), Err(KaizenError::CorruptedFile));
}

#[test]
fn read_fixed_size_string_rejects_bytes_that_are_no_utf8() {
    for bad in [&[0xffu8][..], &[0xc3, 0x28], &[0xe2, 0x82], &[0xed, 0xa0, 0x80], &[0xc0, 0x80]] {
        let mut reader = SolutionReader::from(bad);
        assert_eq!(reader.read_fixed_size_string(bad.len()), Err(KaizenError::CorruptedFile));
    }
}

#[test]
fn read_fixed_size_string_knows_the_limits_of_utf8() {
    let cases: [(&[u8], Option<&str>); 8] = [
        (&[0x7f], Some("\u{7f}")),
        (&[0xc2, 0x80], Some("\u{80}")),
        (&[0xe0, 0xa0, 0x80], Some("\u{800}")),
        (&[0xe0, 0x80, 0x80], None),
        (&[0xed, 0x9f, 0xbf], Some("\u{d7ff}")),
        (&[0xf0, 0x90, 0x80, 0x80], Some("\u{10000}")),
        (&[0xf4, 0x8f, 0xbf, 0xbf], Some("\u{10ffff}")),
        (&[0xf4, 0x90, 0x80, 0x80], None),
    ];
    for (bytes, text) in cases {
        let mut reader = SolutionReader::from(bytes);
        let expected = match text {
            Some(text) => Ok(String::from(text)),
            None => Err(KaizenError::CorruptedFile),
        };
        assert_eq!(reader.read_fixed_size_string(bytes.len()), expected);
    }
}

#[test]
fn read_fixed_size_string_takes_exactly_the_length() {
    let data = b"abcdef";
    let mut reader = SolutionReader::from(data);
    assert_eq!(reader.read_fixed_size_string(2), Ok(String::from("ab")));
    assert_eq!(reader.read_fixed_size_string(0), Ok(String::new()));
    assert_eq!(reader.read_fixed_size_string(5), Err(KaizenError::CorruptedFile));
    assert_eq!(reader.read_fixed_size_string(4), Ok(String::from("cdef")));
}

#[test]
fn read_fixed_size_string_does_not_trust_a_huge_length() {
    let data = b"abc";
    let mut reader = SolutionReader::from(data);
    assert_eq!(reader.read_fixed_size_string(usize::MAX), Err(KaizenError::CorruptedFile));
    assert_eq!(reader.read_fixed_size_string(i32::MAX as usize), Err(KaizenError::CorruptedFile));
}

#[test]
fn read_part_reads_the_seven_integers_of_a_record() {
    let data = ints(&[1, 3, -5, 6, 0, 2, -1]);
    let mut reader = SolutionReader::from(&data);
    let expected = Part {
        kind: PartKind::Arm,
        arm: 3,
        pos: Point { x: -5, y: 6 },
        size: Point { x: 0, y: 2 },
        input: -1,
    };
    assert_eq!(reader.read_part(), Ok(expected));
    assert_eq!(reader.read_part(), Err(KaizenError::CorruptedFile));
}

#[test]
fn read_part_names_an_unknown_kind_before_it_misses_bytes() {
    let data = ints(&[7, 3]);
    let mut reader = SolutionReader::from(&data);
    assert_eq!(reader.read_part(), Err(KaizenError::UnknownPart(7)));
    let data = ints(&[1, 3]);
    let mut reader = SolutionReader::from(&data);
    assert_eq!(reader.read_part(), Err(KaizenError::CorruptedFile));
}

#[test]
fn read_parts_reads_as_many_records_as_the_count_says() {
    let mut data = ints(&[2]);
    data.extend_from_slice(&ints(&[2, -1, 0, 0, 3, 0, -1]));
    data.extend_from_slice(&ints(&[6, -1, 1, 1, 0, 0, 4]));
    data.extend_from_slice(&ints(&[0]));
    let mut reader = SolutionReader::from(&data);
    let parts = reader.read_parts().unwrap();
    assert_eq!(parts.len(), 2);
    assert_eq!(parts[0].kind, PartKind::Track);
    assert_eq!(parts[0].size, Point { x: 3, y: 0 });
    assert_eq!(parts[1].kind, PartKind::Input);
    assert_eq!(parts[1].input, 4);
    assert_eq!(reader.read_parts(), Ok(vec![]));
    assert_eq!(reader.read_parts(), Err(KaizenError::CorruptedFile));
}

#[test]
fn read_parts_fails_with_the_first_bad_record() {
    let mut data = ints(&[3]);
    data.extend_from_slice(&ints(&[2, -1, 0, 0, 3, 0, -1]));
    data.extend_from_slice(&ints(&[9, -1, 1, 1, 0, 0, 4]));
    data.extend_from_slice(&ints(&[7, -1, 1, 1, 0, 0, 4]));
    let mut reader = SolutionReader::from(&data);
    assert_eq!(reader.read_parts(), Err(KaizenError::UnknownPart(9)));
}

#[test]
fn read_parts_does_not_trust_a_huge_count() {
    let data = ints(&[i32::MAX]);
    let mut reader = SolutionReader::from(&data);
    assert_eq!(reader.read_parts(), Err(KaizenError::CorruptedFile));
    let data = ints(&[-3]);
    let mut reader = SolutionReader::from(&data);
    assert_eq!(reader.read_parts(), Err(KaizenError::CorruptedFile));
}

#[test]
fn read_instruction_ends_with_the_grab_byte_before_a_version_is_read() {
    let mut data = ints(&[4, 1, 2, 0, -9]);
    data.push(1);
    data.extend_from_slice(&ints(&[5, 2, 3, 1, 0]));
    data.push(7);
    let mut reader = SolutionReader::from(&data);
    let first = Instruction {
        column: 4,
        row: 1,
        kind: InstructionKind::Slide,
        arm: 0,
        distance: -9,
        grab: true,
    };
    let second = Instruction {
        column: 5,
        row: 2,
        kind: InstructionKind::Flip,
        arm: 1,
        distance: 0,
        grab: false,
    };
    assert_eq!(reader.read_instruction(), Ok(first));
    assert_eq!(reader.read_instruction(), Ok(second));
    assert_eq!(reader.read_instruction(), Err(KaizenError::CorruptedFile));
}

#[test]
fn read_instruction_names_an_unknown_kind_before_it_misses_bytes() {
    let data = ints(&[4, 1, 0]);
    let mut reader = SolutionReader::from(&data);
    assert_eq!(reader.read_instruction(), Err(KaizenError::UnknownInstruction(0)));
    let data = ints(&[4, 1, 1]);
    let mut reader = SolutionReader::from(&data);
    assert_eq!(reader.read_instruction(), Err(KaizenError::CorruptedFile));
    let data = ints(&[4, 1]);
    let mut reader = SolutionReader::from(&data);
    assert_eq!(reader.read_instruction(), Err(KaizenError::CorruptedFile));
}

#[test]
fn read_instructions_reads_as_many_records_as_the_count_says() {
    let mut data = ints(&[2]);
    data.extend_from_slice(&ints(&[0, 0, 1, 0, 3]));
    data.push(0);
    data.extend_from_slice(&ints(&[1, 3, 4, 0, 0]));
    data.push(1);
    let mut reader = SolutionReader::from(&data);
    let instructions = reader.read_instructions().unwrap();
    assert_eq!(instructions.len(), 2);
    assert_eq!(instructions[0].kind, InstructionKind::Extend);
    assert_eq!(instructions[0].distance, 3);
    assert!(!instructions[0].grab);
    assert_eq!(instructions[1].kind, InstructionKind::Poke);
    assert_eq!(instructions[1].row, 3);
    assert!(instructions[1].grab);
    assert_eq!(reader.read_instructions(), Err(KaizenError::CorruptedFile));
}

#[test]
fn read_instructions_fails_with_the_first_bad_record() {
    let mut data = ints(&[2]);
    data.extend_from_slice(&ints(&[0, 0, 6, 0, 3]));
    data.push(0);
    let mut reader = SolutionReader::from(&data);
    assert_eq!(reader.read_instructions(), Err(KaizenError::UnknownInstruction(6)));
}

#[test]
fn read_solution_reads_instructions_under_the_version_of_the_header() {
    let mut record = ints(&[0, 0, 3, 0, 0]);
    record.push(1);
    let mut old = ints(&[10, 3, 0]);
    old.push(1);
    old.extend_from_slice(&ints(&[1, 2, 3, 0, 1]));
    old.extend_from_slice(&record);
    let mut new = ints(&[11, 3, 0]);
    new.push(1);
    new.extend_from_slice(&ints(&[1, 2, 3, 0, 1]));
    new.extend_from_slice(&record);
    new.extend_from_slice(&ints(&[77]));
    let expected = Instruction {
        column: 0,
        row: 0,
        kind: InstructionKind::Flip,
        arm: 0,
        distance: 0,
        grab: true,
    };
    let mut reader = SolutionReader::from(&old);
    assert_eq!(reader.read_solution().unwrap().instructions, vec![expected]);
    let mut reader = SolutionReader::from(&new);
    assert_eq!(reader.read_solution().unwrap().instructions, vec![expected]);
}

#[test]
fn read_solution_must_end_with_the_bytes() {
    let mut data = ints(&[10, 3, 0]);
    data.push(1);
    data.extend_from_slice(&ints(&[1, 2, 3, 0, 0]));
    let mut reader = SolutionReader::from(&data);
    let solution = reader.read_solution().unwrap();
    assert_eq!(solution.level, 3);
    assert_eq!((solution.time, solution.cost, solution.area), (1, 2, 3));
    data.push(0);
    let mut reader = SolutionReader::from(&data);
    assert_eq!(reader.read_solution(), Err(KaizenError::CorruptedFile));
}

#[test]
fn read_solution_starts_where_the_cursor_stands() {
    let mut data = vec![9u8, 9, 9];
    data.extend_from_slice(&ints(&[10, 8, 0]));
    data.push(0);
    data.extend_from_slice(&ints(&[0, 0, 0, 0, 0]));
    let mut reader = SolutionReader::from(&data);
    assert_eq!(reader.read_bytes::<3>(), Ok([9, 9, 9]));
    let solution = reader.read_solution().unwrap();
    assert_eq!(solution.level, 8);
    assert!(!solution.solved);
}
