use kaizensim::codes::{InstructionKind, ParseEnum, PartKind, Version};
use kaizensim::error::KaizenError;

fn version(code: i32) -> Result<Version, KaizenError> {
    <Version as ParseEnum<i32>>::try_from(code)
}

fn part_kind(code: i32) -> Result<PartKind, KaizenError> {
    <PartKind as ParseEnum<i32>>::try_from(code)
}

fn instruction_kind(code: i32) -> Result<InstructionKind, KaizenError> {
    <InstructionKind as ParseEnum<i32>>::try_from(code)
}

#[test]
fn versions_have_the_codes_10_and_11() {
    assert_eq!(version(10), Ok(Version::V1));
    assert_eq!(version(11), Ok(Version::V2));
}

#[test]
fn other_version_codes_are_unknown() {
    assert_eq!(version(0), Err(KaizenError::UnknownVersion(0)));
    assert_eq!(version(9), Err(KaizenError::UnknownVersion(9)));
    assert_eq!(version(12), Err(KaizenError::UnknownVersion(12)));
    assert_eq!(version(-1), Err(KaizenError::UnknownVersion(-1)));
    assert_eq!(version(i32::MIN), Err(KaizenError::UnknownVersion(i32::MIN)));
}

#[test]
fn part_kinds_have_their_codes() {
    assert_eq!(part_kind(1), Ok(PartKind::Arm));
    assert_eq!(part_kind(2), Ok(PartKind::Track));
    assert_eq!(part_kind(3), Ok(PartKind::Welder));
    assert_eq!(part_kind(4), Ok(PartKind::Riveter));
    assert_eq!(part_kind(5), Ok(PartKind::Cutter));
    assert_eq!(part_kind(6), Ok(PartKind::Input));
    assert_eq!(part_kind(8), Ok(PartKind::Drill));
}

#[test]
fn other_part_codes_are_unknown() {
    assert_eq!(part_kind(0), Err(KaizenError::UnknownPart(0)));
    assert_eq!(part_kind(7), Err(KaizenError::UnknownPart(7)));
    assert_eq!(part_kind(9), Err(KaizenError::UnknownPart(9)));
    assert_eq!(part_kind(-1), Err(KaizenError::UnknownPart(-1)));
    assert_eq!(part_kind(i32::MAX), Err(KaizenError::UnknownPart(i32::MAX)));
}

#[test]
fn instruction_kinds_have_their_codes() {
    assert_eq!(instruction_kind(1), Ok(InstructionKind::Extend));
    assert_eq!(instruction_kind(2), Ok(InstructionKind::Slide));
    assert_eq!(instruction_kind(3), Ok(InstructionKind::Flip));
    assert_eq!(instruction_kind(4), Ok(InstructionKind::Poke));
}

#[test]
fn other_instruction_codes_are_unknown() {
    assert_eq!(instruction_kind(0), Err(KaizenError::UnknownInstruction(0)));
    assert_eq!(instruction_kind(5), Err(KaizenError::UnknownInstruction(5)));
    assert_eq!(instruction_kind(-4), Err(KaizenError::UnknownInstruction(-4)));
}

#[test]
fn every_code_in_a_wide_range_is_a_kind_or_names_itself() {
    for code in -300..300 {
        match part_kind(code) {
            Ok(_) => assert!(matches!(code, 1 | 2 | 3 | 4 | 5 | 6 | 8)),
            Err(e) => assert_eq!(e, KaizenError::UnknownPart(code)),
        }
        match instruction_kind(code) {
            Ok(_) => assert!(matches!(code, 1 | 2 | 3 | 4)),
            Err(e) => assert_eq!(e, KaizenError::UnknownInstruction(code)),
        }
        match version(code) {
            Ok(_) => assert!(matches!(code, 10 | 11)),
            Err(e) => assert_eq!(e, KaizenError::UnknownVersion(code)),
        }
    }
}
