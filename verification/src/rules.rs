//! The placement and scheduling rules that every solution made by the game
//! obeys, and the function that holds a decoded solution against them.
//!
//! A file can be well-formed and still hold what the game would never write.
//! Such a solution is called manipulated. Whether a solution is manipulated
//! is one flag for the whole solution; finding it out never fails.

use crate::codes::{InstructionKind, PartKind};
use crate::point::Point;
use crate::solution::{Instruction, Part, Solution, SolutionView};
use std::collections::HashSet;
use vstd::prelude::*;

verus! {

broadcast use vstd::std_specs::hash::group_hash_axioms;

/// The largest distance of a part from the origin along either axis.
pub const MAX_COORD: i32 = 4096;

/// The number of rows of the schedule.
pub const MAX_INSTRUCTIONS_PER_CYCLE: i32 = 4;

/// The largest distance of an `Extend` instruction.
pub const MAX_EXTEND: i32 = 3;

/// The largest distance of a `Slide` instruction.
pub const MAX_SLIDE: i32 = 9;

/// The smallest length of a track.
pub const MIN_TRACK_LEN: i32 = 1;

/// The largest length of a track.
pub const MAX_TRACK_LEN: i32 = 9;

/// The smallest length of an arm or a drill.
pub const MIN_ARM_LEN: i32 = 1;

/// The largest length of an arm or a drill.
pub const MAX_ARM_LEN: i32 = 4;

/// The smallest arm label.
pub const MIN_ARM_LABEL: i32 = 0;

/// The largest arm label.
pub const MAX_ARM_LABEL: i32 = 25;

/// The absolute value of an integer.
pub open spec fn magnitude(v: int) -> int {
    if v < 0 {
        -v
    } else {
        v
    }
}

/// The length of a size: the sum of its absolute extents along both axes.
pub open spec fn length(size: Point) -> int {
    magnitude(size.x as int) + magnitude(size.y as int)
}

/// Whether a position lies in the box that the game allows.
pub open spec fn on_board(pos: Point) -> bool {
    &&& -MAX_COORD <= pos.x <= MAX_COORD
    &&& -MAX_COORD <= pos.y <= MAX_COORD
}

/// Whether a size is a straight line: it has no extent along one axis.
pub open spec fn straight(size: Point) -> bool {
    size.x == 0 || size.y == 0
}

/// Whether a part, taken alone, is one that the game can place.
pub open spec fn part_fits(part: Part) -> bool {
    &&& on_board(part.pos)
    &&& straight(part.size)
    &&& match part.kind {
        PartKind::Arm | PartKind::Drill => {
            &&& MIN_ARM_LABEL <= part.arm <= MAX_ARM_LABEL
            &&& MIN_ARM_LEN <= length(part.size) <= MAX_ARM_LEN
            &&& part.input == -1
        },
        PartKind::Cutter => {
            &&& part.arm == -1
            &&& part.size.x == 0
            &&& part.size.y == 0
            &&& part.input == -1
        },
        PartKind::Input => part.arm == -1,
        PartKind::Riveter | PartKind::Welder => {
            &&& part.arm == -1
            &&& length(part.size) == 1
            &&& part.input == -1
        },
        PartKind::Track => {
            &&& part.arm == -1
            &&& MIN_TRACK_LEN <= length(part.size) <= MAX_TRACK_LEN
            &&& part.input == -1
        },
    }
}

/// The labels of the arms and drills among `parts`.
pub open spec fn arm_labels(parts: Seq<Part>) -> Set<i32> {
    Set::new(
        |label: i32|
            exists|i: int|
                0 <= i < parts.len() && #[trigger] parts[i].kind.has_arm() && parts[i].arm
                    == label,
    )
}

/// The ids of the inputs among `parts`.
pub open spec fn input_ids(parts: Seq<Part>) -> Set<i32> {
    Set::new(
        |id: i32|
            exists|i: int|
                0 <= i < parts.len() && (#[trigger] parts[i]).kind == PartKind::Input
                    && parts[i].input == id,
    )
}

/// Whether no two arms or drills among `parts` share a label.
pub open spec fn labels_distinct(parts: Seq<Part>) -> bool {
    forall|i: int, j: int|
        0 <= i < j < parts.len() && #[trigger] parts[i].kind.has_arm()
            && #[trigger] parts[j].kind.has_arm() ==> parts[i].arm != parts[j].arm
}

/// Whether no two inputs among `parts` share an id.
pub open spec fn inputs_distinct(parts: Seq<Part>) -> bool {
    forall|i: int, j: int|
        #![trigger parts[i], parts[j]]
        0 <= i < j < parts.len() && parts[i].kind == PartKind::Input && parts[j].kind
            == PartKind::Input ==> parts[i].input != parts[j].input
}

/// Whether an instruction, taken alone, is one that the game can schedule
/// for one of the arms in `labels`.
pub open spec fn instruction_fits(instruction: Instruction, labels: Set<i32>) -> bool {
    &&& instruction.column >= 0
    &&& 0 <= instruction.row < MAX_INSTRUCTIONS_PER_CYCLE
    &&& labels.contains(instruction.arm)
    &&& match instruction.kind {
        InstructionKind::Extend => 1 <= magnitude(instruction.distance as int) <= MAX_EXTEND,
        InstructionKind::Slide => 1 <= magnitude(instruction.distance as int) <= MAX_SLIDE,
        InstructionKind::Flip | InstructionKind::Poke => true,
    }
}

/// Whether two instructions stand in the same slot of the schedule.
pub open spec fn same_slot(a: Instruction, b: Instruction) -> bool {
    a.column == b.column && a.row == b.row
}

/// Whether no two of the instructions stand in the same slot.
pub open spec fn slots_distinct(instructions: Seq<Instruction>) -> bool {
    forall|i: int, j: int|
        #![trigger instructions[i], instructions[j]]
        0 <= i < j < instructions.len() ==> !same_slot(instructions[i], instructions[j])
}

/// Whether a solution obeys every rule of the game: each part fits, arm
/// labels and input ids are unique, each instruction fits and names an arm
/// that exists, and no slot of the schedule is used twice.
pub open spec fn legal(solution: SolutionView) -> bool {
    let parts = solution.parts;
    let instructions = solution.instructions;
    &&& forall|i: int| 0 <= i < parts.len() ==> part_fits(#[trigger] parts[i])
    &&& labels_distinct(parts)
    &&& inputs_distinct(parts)
    &&& forall|j: int|
        0 <= j < instructions.len() ==> instruction_fits(
            #[trigger] instructions[j],
            arm_labels(parts),
        )
    &&& slots_distinct(instructions)
}

/// Whether a solution breaks a rule of the game.
pub open spec fn manipulated(solution: SolutionView) -> bool {
    !legal(solution)
}

/// The number under which the slot of an instruction is remembered.
/// Two instructions with rows of the schedule have the same number exactly
/// when they stand in the same slot.
spec fn slot_key(instruction: Instruction) -> int {
    instruction.column * MAX_INSTRUCTIONS_PER_CYCLE + instruction.row
}

/// The numbers of the slots that `instructions` stand in.
spec fn slot_keys(instructions: Seq<Instruction>) -> Set<i64> {
    Set::new(
        |key: i64|
            exists|i: int|
                0 <= i < instructions.len() && slot_key(#[trigger] instructions[i]) == key,
    )
}

/// One more part adds its label to the labels, if it carries one.
proof fn lemma_arm_labels_push(parts: Seq<Part>, part: Part)
    ensures
        arm_labels(parts.push(part)) == if part.kind.has_arm() {
            arm_labels(parts).insert(part.arm)
        } else {
            arm_labels(parts)
        },
{
    let more = parts.push(part);
    let expected = if part.kind.has_arm() {
        arm_labels(parts).insert(part.arm)
    } else {
        arm_labels(parts)
    };
    assert forall|label: i32| arm_labels(more).contains(label) <==> expected.contains(label) by {
        if arm_labels(more).contains(label) {
            let k = choose|k: int|
                0 <= k < more.len() && #[trigger] more[k].kind.has_arm() && more[k].arm == label;
            if k < parts.len() {
                assert(parts[k].kind.has_arm());
            }
        }
        if arm_labels(parts).contains(label) {
            let k = choose|k: int|
                0 <= k < parts.len() && #[trigger] parts[k].kind.has_arm() && parts[k].arm
                    == label;
            assert(more[k].kind.has_arm());
        }
        if part.kind.has_arm() && part.arm == label {
            assert(more[parts.len() as int].kind.has_arm());
        }
    }
    assert(arm_labels(more) =~= expected);
}

/// One more part adds its id to the input ids, if it is an input.
proof fn lemma_input_ids_push(parts: Seq<Part>, part: Part)
    ensures
        input_ids(parts.push(part)) == if part.kind == PartKind::Input {
            input_ids(parts).insert(part.input)
        } else {
            input_ids(parts)
        },
{
    let more = parts.push(part);
    let expected = if part.kind == PartKind::Input {
        input_ids(parts).insert(part.input)
    } else {
        input_ids(parts)
    };
    assert forall|id: i32| input_ids(more).contains(id) <==> expected.contains(id) by {
        if input_ids(more).contains(id) {
            let k = choose|k: int|
                0 <= k < more.len() && (#[trigger] more[k]).kind == PartKind::Input
                    && more[k].input == id;
            if k < parts.len() {
                assert(parts[k].kind == PartKind::Input);
            }
        }
        if input_ids(parts).contains(id) {
            let k = choose|k: int|
                0 <= k < parts.len() && (#[trigger] parts[k]).kind == PartKind::Input
                    && parts[k].input == id;
            assert(more[k].kind == PartKind::Input);
        }
        if part.kind == PartKind::Input && part.input == id {
            assert(more[parts.len() as int].kind == PartKind::Input);
        }
    }
    assert(input_ids(more) =~= expected);
}

/// One more instruction adds the number of its slot.
proof fn lemma_slot_keys_push(instructions: Seq<Instruction>, instruction: Instruction)
    requires
        i64::MIN <= slot_key(instruction) <= i64::MAX,
    ensures
        slot_keys(instructions.push(instruction)) == slot_keys(instructions).insert(
            slot_key(instruction) as i64,
        ),
{
    let more = instructions.push(instruction);
    let expected = slot_keys(instructions).insert(slot_key(instruction) as i64);
    assert forall|key: i64| slot_keys(more).contains(key) <==> expected.contains(key) by {
        if slot_keys(more).contains(key) {
            let k = choose|k: int| 0 <= k < more.len() && slot_key(#[trigger] more[k]) == key;
            if k < instructions.len() {
                assert(slot_key(instructions[k]) == key);
            }
        }
        if slot_keys(instructions).contains(key) {
            let k = choose|k: int|
                0 <= k < instructions.len() && slot_key(#[trigger] instructions[k]) == key;
            assert(slot_key(more[k]) == key);
        }
        if slot_key(instruction) == key {
            assert(slot_key(more[instructions.len() as int]) == key);
        }
    }
    assert(slot_keys(more) =~= expected);
}

/// One more part keeps the labels distinct exactly when it carries no label
/// that is there already.
proof fn lemma_labels_distinct_push(parts: Seq<Part>, part: Part)
    requires
        labels_distinct(parts),
    ensures
        labels_distinct(parts.push(part)) <==> !(part.kind.has_arm() && arm_labels(
            parts,
        ).contains(part.arm)),
{
    let more = parts.push(part);
    let n = parts.len() as int;
    if part.kind.has_arm() && arm_labels(parts).contains(part.arm) {
        let k = choose|k: int|
            0 <= k < parts.len() && #[trigger] parts[k].kind.has_arm() && parts[k].arm
                == part.arm;
        assert(more[k].kind.has_arm() && more[n].kind.has_arm());
    } else {
        assert forall|i: int, j: int|
            0 <= i < j < more.len() && #[trigger] more[i].kind.has_arm()
                && #[trigger] more[j].kind.has_arm() implies more[i].arm != more[j].arm by {
            assert(parts[i].kind.has_arm());
            if j < n {
                assert(parts[j].kind.has_arm());
            }
        }
    }
}

/// One more part keeps the input ids distinct exactly when it is no input
/// with an id that is there already.
proof fn lemma_inputs_distinct_push(parts: Seq<Part>, part: Part)
    requires
        inputs_distinct(parts),
    ensures
        inputs_distinct(parts.push(part)) <==> !(part.kind == PartKind::Input && input_ids(
            parts,
        ).contains(part.input)),
{
    let more = parts.push(part);
    let n = parts.len() as int;
    if part.kind == PartKind::Input && input_ids(parts).contains(part.input) {
        let k = choose|k: int|
            0 <= k < parts.len() && (#[trigger] parts[k]).kind == PartKind::Input
                && parts[k].input == part.input;
        assert(more[k].input == more[n].input);
    } else {
        assert forall|i: int, j: int|
            #![trigger more[i], more[j]]
            0 <= i < j < more.len() && more[i].kind == PartKind::Input && more[j].kind
                == PartKind::Input implies more[i].input != more[j].input by {
            assert(parts[i].kind == PartKind::Input);
            if j < n {
                assert(parts[j].kind == PartKind::Input);
            }
        }
    }
}

/// One more instruction keeps the slots distinct exactly when its slot is
/// not taken already, as long as every row is one of the schedule.
proof fn lemma_slots_distinct_push(instructions: Seq<Instruction>, instruction: Instruction)
    requires
        slots_distinct(instructions),
        forall|k: int|
            0 <= k < instructions.len() ==> 0 <= (#[trigger] instructions[k]).row
                < MAX_INSTRUCTIONS_PER_CYCLE,
        0 <= instruction.row < MAX_INSTRUCTIONS_PER_CYCLE,
    ensures
        slots_distinct(instructions.push(instruction)) <==> !slot_keys(instructions).contains(
            slot_key(instruction) as i64,
        ),
{
    let more = instructions.push(instruction);
    let n = instructions.len() as int;
    if slot_keys(instructions).contains(slot_key(instruction) as i64) {
        let k = choose|k: int|
            0 <= k < instructions.len() && slot_key(#[trigger] instructions[k]) == slot_key(
                instruction,
            ) as i64;
        assert(same_slot(more[k], more[n]));
    } else {
        assert forall|i: int, j: int|
            #![trigger more[i], more[j]]
            0 <= i < j < more.len() implies !same_slot(more[i], more[j]) by {
            if j < n {
                assert(!same_slot(instructions[i], instructions[j]));
            } else if same_slot(more[i], more[j]) {
                assert(slot_key(instructions[i]) == slot_key(instruction));
            }
        }
    }
}

/// What holds of a whole sequence holds of each of its beginnings: a label,
/// an id or a slot that is used twice early on is used twice in the whole.
proof fn lemma_distinct_in_prefix(parts: Seq<Part>, instructions: Seq<Instruction>, n: int)
    ensures
        0 <= n <= parts.len() && labels_distinct(parts) ==> labels_distinct(parts.take(n)),
        0 <= n <= parts.len() && inputs_distinct(parts) ==> inputs_distinct(parts.take(n)),
        0 <= n <= instructions.len() && slots_distinct(instructions) ==> slots_distinct(
            instructions.take(n),
        ),
{
    if 0 <= n <= parts.len() && labels_distinct(parts) {
        let some = parts.take(n);
        assert forall|i: int, j: int|
            0 <= i < j < some.len() && #[trigger] some[i].kind.has_arm()
                && #[trigger] some[j].kind.has_arm() implies some[i].arm != some[j].arm by {
            assert(parts[i].kind.has_arm() && parts[j].kind.has_arm());
        }
    }
    if 0 <= n <= parts.len() && inputs_distinct(parts) {
        let some = parts.take(n);
        assert forall|i: int, j: int|
            #![trigger some[i], some[j]]
            0 <= i < j < some.len() && some[i].kind == PartKind::Input && some[j].kind
                == PartKind::Input implies some[i].input != some[j].input by {
            assert(parts[i].input != parts[j].input);
        }
    }
    if 0 <= n <= instructions.len() && slots_distinct(instructions) {
        let some = instructions.take(n);
        assert forall|i: int, j: int|
            #![trigger some[i], some[j]]
            0 <= i < j < some.len() implies !same_slot(some[i], some[j]) by {
            assert(!same_slot(instructions[i], instructions[j]));
        }
    }
}

/// Tells whether the absolute value of `v` lies in `lo..=hi`.
fn magnitude_within(v: i32, lo: i32, hi: i32) -> (r: bool)
    ensures
        r == (lo <= magnitude(v as int) <= hi),
{
    let m: i64 = if v < 0 {
        -(v as i64)
    } else {
        v as i64
    };
    lo as i64 <= m && m <= hi as i64
}

/// Tells whether a decoded solution breaks a rule of the game.
///
/// The answer is a finding, not a failure: a manipulated solution is still
/// a solution.
pub fn is_manipulated(solution: &Solution) -> (r: bool)
    ensures
        r == manipulated(solution@),
{
    let ghost parts = solution.parts@;
    let ghost instructions = solution.instructions@;
    let mut arms: HashSet<i32> = HashSet::new();
    let mut inputs: HashSet<i32> = HashSet::new();
    let mut i: usize = 0;
    proof {
        assert(arms@ =~= arm_labels(parts.take(0)));
        assert(inputs@ =~= input_ids(parts.take(0)));
    }
    while i < solution.parts.len()
        invariant
            i <= solution.parts.len(),
            parts == solution.parts@,
            forall|k: int| 0 <= k < i ==> part_fits(#[trigger] parts[k]),
            labels_distinct(parts.take(i as int)),
            inputs_distinct(parts.take(i as int)),
            arms@ == arm_labels(parts.take(i as int)),
            inputs@ == input_ids(parts.take(i as int)),
        decreases solution.parts.len() - i,
    {
        let part = &solution.parts[i];
        proof {
            let seen = parts.take(i as int);
            assert(parts.take(i + 1) =~= seen.push(*part));
            lemma_arm_labels_push(seen, *part);
            lemma_input_ids_push(seen, *part);
            lemma_labels_distinct_push(seen, *part);
            lemma_inputs_distinct_push(seen, *part);
            lemma_distinct_in_prefix(parts, instructions, i + 1);
        }
        if part.pos.x < -MAX_COORD || part.pos.x > MAX_COORD {
            return true;
        }
        if part.pos.y < -MAX_COORD || part.pos.y > MAX_COORD {
            return true;
        }
        if !part.size.is_line() {
            return true;
        }
        match part.kind {
            PartKind::Arm => {
                if part.arm < MIN_ARM_LABEL || part.arm > MAX_ARM_LABEL {
                    return true;
                }
                if !magnitude_within(part.size.sum(), MIN_ARM_LEN, MAX_ARM_LEN) {
                    return true;
                }
                if !arms.insert(part.arm) {
                    return true;
                }
                if part.input != -1 {
                    return true;
                }
            },
            PartKind::Cutter => {
                if part.arm != -1 {
                    return true;
                }
                if !part.size.is_empty() {
                    return true;
                }
                if part.input != -1 {
                    return true;
                }
            },
            PartKind::Drill => {
                if part.arm < MIN_ARM_LABEL || part.arm > MAX_ARM_LABEL {
                    return true;
                }
                if !magnitude_within(part.size.sum(), MIN_ARM_LEN, MAX_ARM_LEN) {
                    return true;
                }
                if !arms.insert(part.arm) {
                    return true;
                }
                if part.input != -1 {
                    return true;
                }
            },
            PartKind::Input => {
                if part.arm != -1 {
                    return true;
                }
                if !inputs.insert(part.input) {
                    return true;
                }
            },
            PartKind::Riveter => {
                if part.arm != -1 {
                    return true;
                }
                if !magnitude_within(part.size.sum(), 1, 1) {
                    return true;
                }
                if part.input != -1 {
                    return true;
                }
            },
            PartKind::Track => {
                if part.arm != -1 {
                    return true;
                }
                if !magnitude_within(part.size.sum(), MIN_TRACK_LEN, MAX_TRACK_LEN) {
                    return true;
                }
                if part.input != -1 {
                    return true;
                }
            },
            PartKind::Welder => {
                if part.arm != -1 {
                    return true;
                }
                if !magnitude_within(part.size.sum(), 1, 1) {
                    return true;
                }
                if part.input != -1 {
                    return true;
                }
            },
        }
        i = i + 1;
    }
    let mut slots: HashSet<i64> = HashSet::new();
    let mut j: usize = 0;
    proof {
        assert(parts.take(i as int) =~= parts);
        assert(slots@ =~= slot_keys(instructions.take(0)));
    }
    while j < solution.instructions.len()
        invariant
            j <= solution.instructions.len(),
            parts == solution.parts@,
            instructions == solution.instructions@,
            forall|k: int| 0 <= k < parts.len() ==> part_fits(#[trigger] parts[k]),
            labels_distinct(parts),
            inputs_distinct(parts),
            arms@ == arm_labels(parts),
            forall|k: int|
                0 <= k < j ==> instruction_fits(#[trigger] instructions[k], arm_labels(parts)),
            slots_distinct(instructions.take(j as int)),
            slots@ == slot_keys(instructions.take(j as int)),
        decreases solution.instructions.len() - j,
    {
        let instruction = &solution.instructions[j];
        assert(*instruction == instructions[j as int]);
        if instruction.column < 0 {
            return true;
        }
        if instruction.row < 0 || instruction.row >= MAX_INSTRUCTIONS_PER_CYCLE {
            return true;
        }
        proof {
            let seen = instructions.take(j as int);
            assert(instructions.take(j + 1) =~= seen.push(*instruction));
            assert forall|k: int| 0 <= k < seen.len() implies 0 <= (#[trigger] seen[k]).row
                < MAX_INSTRUCTIONS_PER_CYCLE by {
                assert(instruction_fits(instructions[k], arm_labels(parts)));
            }
            lemma_slot_keys_push(seen, *instruction);
            lemma_slots_distinct_push(seen, *instruction);
            lemma_distinct_in_prefix(parts, instructions, j + 1);
        }
        let key: i64 = instruction.column as i64 * MAX_INSTRUCTIONS_PER_CYCLE as i64
            + instruction.row as i64;
        if !slots.insert(key) {
            return true;
        }
        if !arms.contains(&instruction.arm) {
            return true;
        }
        match instruction.kind {
            InstructionKind::Extend => {
                if !magnitude_within(instruction.distance, 1, MAX_EXTEND) {
                    return true;
                }
            },
            InstructionKind::Flip => {},
            InstructionKind::Poke => {},
            InstructionKind::Slide => {
                if !magnitude_within(instruction.distance, 1, MAX_SLIDE) {
                    return true;
                }
            },
        }
        j = j + 1;
    }
    proof {
        assert(instructions.take(j as int) =~= instructions);
    }
    false
}

/// Two arms or drills that share a label make a solution manipulated.
pub proof fn lemma_shared_label_is_manipulated(solution: SolutionView, i: int, j: int)
    requires
        0 <= i < solution.parts.len(),
        0 <= j < solution.parts.len(),
        i != j,
        solution.parts[i].kind.has_arm(),
        solution.parts[j].kind.has_arm(),
        solution.parts[i].arm == solution.parts[j].arm,
    ensures
        manipulated(solution),
{
    if i < j {
        assert(solution.parts[i].kind.has_arm() && solution.parts[j].kind.has_arm());
    } else {
        assert(solution.parts[j].kind.has_arm() && solution.parts[i].kind.has_arm());
    }
}

/// Two inputs that share an id make a solution manipulated.
pub proof fn lemma_shared_input_is_manipulated(solution: SolutionView, i: int, j: int)
    requires
        0 <= i < solution.parts.len(),
        0 <= j < solution.parts.len(),
        i != j,
        solution.parts[i].kind == PartKind::Input,
        solution.parts[j].kind == PartKind::Input,
        solution.parts[i].input == solution.parts[j].input,
    ensures
        manipulated(solution),
{
    if i < j {
        assert(solution.parts[i].input == solution.parts[j].input);
    } else {
        assert(solution.parts[j].input == solution.parts[i].input);
    }
}

/// A part that does not fit makes a solution manipulated.
pub proof fn lemma_unfit_part_is_manipulated(solution: SolutionView, i: int)
    requires
        0 <= i < solution.parts.len(),
        !part_fits(solution.parts[i]),
    ensures
        manipulated(solution),
{
}

/// A track fits exactly when it stands on the board, carries neither an
/// arm label nor an input id, and is a straight line of length 1 to 9.
pub proof fn lemma_track_fits(part: Part)
    requires
        part.kind == PartKind::Track,
    ensures
        part_fits(part) <==> {
            &&& on_board(part.pos)
            &&& part.arm == -1
            &&& part.input == -1
            &&& straight(part.size)
            &&& 1 <= length(part.size) <= 9
        },
{
}

/// A track whose length is below 1 or above 9 makes a solution
/// manipulated.
pub proof fn lemma_track_length_is_bounded(solution: SolutionView, i: int)
    requires
        0 <= i < solution.parts.len(),
        solution.parts[i].kind == PartKind::Track,
        length(solution.parts[i].size) < 1 || length(solution.parts[i].size) > 9,
    ensures
        manipulated(solution),
{
    lemma_unfit_part_is_manipulated(solution, i);
}

/// Two instructions in the same slot of the schedule make a solution
/// manipulated.
pub proof fn lemma_shared_slot_is_manipulated(solution: SolutionView, i: int, j: int)
    requires
        0 <= i < solution.instructions.len(),
        0 <= j < solution.instructions.len(),
        i != j,
        same_slot(solution.instructions[i], solution.instructions[j]),
    ensures
        manipulated(solution),
{
    if i < j {
        assert(same_slot(solution.instructions[i], solution.instructions[j]));
    } else {
        assert(same_slot(solution.instructions[j], solution.instructions[i]));
    }
}

/// An instruction for an arm label that no arm or drill carries makes a
/// solution manipulated.
pub proof fn lemma_dangling_arm_is_manipulated(solution: SolutionView, j: int)
    requires
        0 <= j < solution.instructions.len(),
        forall|i: int|
            0 <= i < solution.parts.len() && #[trigger] solution.parts[i].kind.has_arm()
                ==> solution.parts[i].arm != solution.instructions[j].arm,
    ensures
        manipulated(solution),
{
    assert(!instruction_fits(solution.instructions[j], arm_labels(solution.parts)));
}

/// A solution without parts and without instructions is legal: there is
/// nothing in it that could break a rule.
pub proof fn lemma_empty_is_legal(solution: SolutionView)
    requires
        solution.parts.len() == 0,
        solution.instructions.len() == 0,
    ensures
        !manipulated(solution),
{
}

} // verus!
