//! Chunks of bytecode: the code, the source line of each byte of it, and the
//! constants that the code names by their index.

use crate::array::Array;
use crate::value::Value;
use vstd::prelude::*;

verus! {

#[derive(Clone, Copy, Debug, PartialEq, Eq, Structural)]
pub enum OpCode {
    Return,
    AddConstant,
    AddNil,
    AddTrue,
    AddFalse,
    Equal,
    Greater,
    Less,
    Negate,
    Add,
    Substract,
    Multiply,
    Divide,
    Not,
    Print,
    Pop,
    DefineGlobal,
    GetGlobal,
    SetGlobal,
    GetLocal,
    SetLocal,
    JumpIfFalse,
    Jump,
    Loop,
}

/// The byte that stands for `op` in the code.
pub open spec fn opcode_byte(op: OpCode) -> u8 {
    match op {
        OpCode::Return => 0,
        OpCode::AddConstant => 1,
        OpCode::AddNil => 2,
        OpCode::AddTrue => 3,
        OpCode::AddFalse => 4,
        OpCode::Equal => 5,
        OpCode::Greater => 6,
        OpCode::Less => 7,
        OpCode::Negate => 8,
        OpCode::Add => 9,
        OpCode::Substract => 10,
        OpCode::Multiply => 11,
        OpCode::Divide => 12,
        OpCode::Not => 13,
        OpCode::Print => 14,
        OpCode::Pop => 15,
        OpCode::DefineGlobal => 16,
        OpCode::GetGlobal => 17,
        OpCode::SetGlobal => 18,
        OpCode::GetLocal => 19,
        OpCode::SetLocal => 20,
        OpCode::JumpIfFalse => 21,
        OpCode::Jump => 22,
        OpCode::Loop => 23,
    }
}

/// The operation that `byte` stands for, if it stands for one.
pub open spec fn opcode_of(byte: u8) -> Option<OpCode> {
    if byte == 0 {
        Some(OpCode::Return)
    } else if byte == 1 {
        Some(OpCode::AddConstant)
    } else if byte == 2 {
        Some(OpCode::AddNil)
    } else if byte == 3 {
        Some(OpCode::AddTrue)
    } else if byte == 4 {
        Some(OpCode::AddFalse)
    } else if byte == 5 {
        Some(OpCode::Equal)
    } else if byte == 6 {
        Some(OpCode::Greater)
    } else if byte == 7 {
        Some(OpCode::Less)
    } else if byte == 8 {
        Some(OpCode::Negate)
    } else if byte == 9 {
        Some(OpCode::Add)
    } else if byte == 10 {
        Some(OpCode::Substract)
    } else if byte == 11 {
        Some(OpCode::Multiply)
    } else if byte == 12 {
        Some(OpCode::Divide)
    } else if byte == 13 {
        Some(OpCode::Not)
    } else if byte == 14 {
        Some(OpCode::Print)
    } else if byte == 15 {
        Some(OpCode::Pop)
    } else if byte == 16 {
        Some(OpCode::DefineGlobal)
    } else if byte == 17 {
        Some(OpCode::GetGlobal)
    } else if byte == 18 {
        Some(OpCode::SetGlobal)
    } else if byte == 19 {
        Some(OpCode::GetLocal)
    } else if byte == 20 {
        Some(OpCode::SetLocal)
    } else if byte == 21 {
        Some(OpCode::JumpIfFalse)
    } else if byte == 22 {
        Some(OpCode::Jump)
    } else if byte == 23 {
        Some(OpCode::Loop)
    } else {
        None
    }
}

/// How many operand bytes follow the byte of `op`.
pub open spec fn operand_width(op: OpCode) -> int {
    match op {
        OpCode::AddConstant
        | OpCode::DefineGlobal
        | OpCode::GetGlobal
        | OpCode::SetGlobal
        | OpCode::GetLocal
        | OpCode::SetLocal => 1,
        OpCode::JumpIfFalse | OpCode::Jump | OpCode::Loop => 2,
        _ => 0,
    }
}

/// Whether instructions fill the code from `from` to `to`, one behind the
/// other: each starts with the byte of an operation and has its operands.
pub open spec fn walk(code: Seq<u8>, from: int, to: int) -> bool
    decreases to - from,
{
    if from == to {
        true
    } else if from < 0 || from > to || from >= code.len() {
        false
    } else {
        match opcode_of(code[from]) {
            Some(op) => if from + 1 + operand_width(op) <= to {
                walk(code, from + 1 + operand_width(op), to)
            } else {
                false
            },
            None => false,
        }
    }
}

/// Whether `offset` is the boundary of an instruction: the instructions
/// from the start of the code end there.
pub open spec fn boundary(code: Seq<u8>, offset: int) -> bool {
    walk(code, 0, offset)
}

/// Whether the code is made of whole instructions.
pub open spec fn whole(code: Seq<u8>) -> bool {
    walk(code, 0, code.len() as int)
}

/// Whether `after` keeps the instructions of `before`: where an instruction
/// starts in `before`, the same operation starts in `after`.
pub open spec fn keeps(before: Seq<u8>, after: Seq<u8>) -> bool {
    &&& before.len() <= after.len()
    &&& forall|p: int|
        0 <= p <= before.len() && #[trigger] boundary(before, p) ==> boundary(after, p) && (p
            < before.len() ==> opcode_of(after[p]) == opcode_of(before[p]))
}

/// Whether the two bytes at `offset` are the operand of a jump forward.
pub open spec fn jump_at(code: Seq<u8>, offset: int) -> bool {
    &&& 1 <= offset
    &&& offset + 2 <= code.len()
    &&& boundary(code, offset - 1)
    &&& (opcode_of(code[offset - 1]) == Some(OpCode::JumpIfFalse) || opcode_of(code[offset - 1])
        == Some(OpCode::Jump))
}

/// A walk that passes `mid` goes on from there.
pub proof fn lemma_walk_split(code: Seq<u8>, from: int, mid: int, to: int)
    requires
        walk(code, from, to),
        walk(code, from, mid),
        mid <= to,
    ensures
        walk(code, mid, to),
    decreases mid - from,
{
    if from != mid {
        let op = opcode_of(code[from])->0;
        lemma_walk_split(code, from + 1 + operand_width(op), mid, to);
    }
}

/// Two walks, one behind the other, are one walk.
pub proof fn lemma_walk_join(code: Seq<u8>, from: int, mid: int, to: int)
    requires
        walk(code, from, mid),
        walk(code, mid, to),
    ensures
        walk(code, from, to),
    decreases mid - from,
{
    if from != mid {
        let op = opcode_of(code[from])->0;
        lemma_walk_join(code, from + 1 + operand_width(op), mid, to);
        if mid == to {
        }
    } else {
    }
}

/// A walk reads the code only where it passes.
pub proof fn lemma_walk_same(code: Seq<u8>, other: Seq<u8>, from: int, to: int)
    requires
        walk(code, from, to),
        to <= other.len() || code.len() <= other.len(),
        forall|i: int| from <= i < to && i < code.len() && i < other.len() ==> other[i] == code[i],
    ensures
        walk(other, from, to),
    decreases to - from,
{
    if from != to {
        let op = opcode_of(code[from])->0;
        lemma_walk_same(code, other, from + 1 + operand_width(op), to);
    }
}

/// Whether `after` starts with the bytes of `before`.
pub open spec fn prefix_kept(before: Seq<u8>, after: Seq<u8>) -> bool {
    before.len() <= after.len() && forall|i: int|
        0 <= i < before.len() ==> #[trigger] after[i] == before[i]
}

/// Whether `after` starts with the bytes of `before`, but for the two bytes
/// at `offset`.
pub open spec fn kept_except(before: Seq<u8>, after: Seq<u8>, offset: int) -> bool {
    before.len() <= after.len() && forall|i: int|
        0 <= i < before.len() && i != offset && i != offset + 1 ==> #[trigger] after[i]
            == before[i]
}

/// The boundary of an instruction stays one where the code in front of it
/// stays.
pub proof fn lemma_boundary_kept(before: Seq<u8>, after: Seq<u8>, offset: int)
    requires
        boundary(before, offset),
        offset <= before.len(),
        prefix_kept(before, after),
    ensures
        boundary(after, offset),
{
    lemma_walk_same(before, after, 0, offset);
}

/// The operand of a jump stays one where the code in front of it stays.
pub proof fn lemma_jump_at_kept(before: Seq<u8>, after: Seq<u8>, offset: int)
    requires
        jump_at(before, offset),
        prefix_kept(before, after),
    ensures
        jump_at(after, offset),
{
    lemma_walk_same(before, after, 0, offset - 1);
}

/// The operand of a jump stays one when the operand of another jump is
/// replaced.
pub proof fn lemma_jump_at_patched(code: Seq<u8>, offset: int, low: u8, high: u8, other: int)
    requires
        whole(code),
        jump_at(code, offset),
        jump_at(code, other),
    ensures
        jump_at(code.update(offset, low).update(offset + 1, high), other),
{
    lemma_whole_patched(code, offset, low, high);
    assert(boundary(code, other - 1));
}

/// No instruction starts inside another.
pub proof fn lemma_no_boundary_inside(code: Seq<u8>, first: int, second: int)
    requires
        boundary(code, first),
        boundary(code, second),
        0 <= first < second,
    ensures
        first < code.len(),
        opcode_of(code[first]) is Some,
        first + 1 + operand_width(opcode_of(code[first])->0) <= second,
{
    lemma_walk_split(code, 0, first, second);
}

/// Whether the operand of `op` is the index of a constant.
pub open spec fn names_constant(op: OpCode) -> bool {
    op == OpCode::AddConstant || op == OpCode::DefineGlobal || op == OpCode::GetGlobal || op
        == OpCode::SetGlobal
}

/// Whether `value` is no string, or a string whose object is one of the
/// first `objects` of the heap.
pub open spec fn value_known(value: Value, objects: nat) -> bool {
    match value {
        Value::String(handle) => handle.index < objects,
        _ => true,
    }
}

/// Whether `operand` can follow `op` in a chunk with the constants
/// `constants`: where `op` names a constant, the constant is there, and the
/// name of a global is a string.
pub open spec fn operand_fits(constants: Seq<Value>, op: OpCode, operand: u8) -> bool {
    names_constant(op) ==> operand < constants.len() && (op != OpCode::AddConstant
        ==> constants[operand as int] is String)
}

/// Whether every instruction that names a constant names one that the chunk
/// holds, every global is named by a string, and the objects of the strings
/// among the constants are among the first `objects` of the heap.
pub open spec fn named(chunk: ChunkView, objects: nat) -> bool {
    &&& forall|p: int|
        0 <= p < chunk.code.len() && #[trigger] boundary(chunk.code, p) ==> match opcode_of(
            chunk.code[p],
        ) {
            Some(op) => names_constant(op) ==> p + 1 < chunk.code.len() && operand_fits(
                chunk.constants,
                op,
                chunk.code[p + 1],
            ),
            None => true,
        }
    &&& forall|k: int|
        0 <= k < chunk.constants.len() ==> value_known(#[trigger] chunk.constants[k], objects)
}

/// Whether every jump of the code leads to the boundary of an instruction in
/// the code, or at its end. A jump forward whose operand is at one of
/// `pending` has no offset yet and leads nowhere.
pub open spec fn landed(code: Seq<u8>, pending: Set<int>) -> bool {
    forall|p: int|
        0 <= p < code.len() && #[trigger] boundary(code, p) ==> match opcode_of(code[p]) {
            Some(OpCode::JumpIfFalse) | Some(OpCode::Jump) => p + 3 <= code.len() && (
            pending.contains(p + 1) || (p + 3 + offset_of(code[p + 1], code[p + 2]) <= code.len()
                && boundary(code, p + 3 + offset_of(code[p + 1], code[p + 2])))),
            Some(OpCode::Loop) => p + 3 <= code.len() && offset_of(code[p + 1], code[p + 2]) <= p
                + 3 && boundary(code, p + 3 - offset_of(code[p + 1], code[p + 2])),
            _ => true,
        }
}

/// Whether the chunk is well formed: its code is made of whole instructions,
/// its jumps lead to instructions, and its instructions name constants that
/// it holds.
pub open spec fn well_formed(chunk: ChunkView, objects: nat) -> bool {
    &&& whole(chunk.code)
    &&& landed(chunk.code, Set::empty())
    &&& named(chunk, objects)
}

/// What an added instruction must be for the chunk to stay well formed: no
/// jump forward with an offset, a jump back only to an instruction, and with
/// a fitting operand.
pub open spec fn instruction_fits(chunk: ChunkView, op: OpCode, extra: Seq<u8>) -> bool {
    &&& extra.len() == 1 + operand_width(op)
    &&& opcode_of(extra[0]) == Some(op)
    &&& operand_width(op) == 1 ==> operand_fits(chunk.constants, op, extra[1])
    &&& op == OpCode::Loop ==> 3 <= offset_of(extra[1], extra[2]) <= chunk.code.len() + 3 && boundary(
        chunk.code,
        chunk.code.len() + 3 - offset_of(extra[1], extra[2]),
    )
}

/// A well-formed chunk to which a fitting instruction is added is well
/// formed; a jump forward that is added is pending.
pub proof fn lemma_formed_extends(
    chunk: ChunkView,
    objects: nat,
    pending: Set<int>,
    op: OpCode,
    extra: Seq<u8>,
)
    requires
        whole(chunk.code),
        landed(chunk.code, pending),
        named(chunk, objects),
        instruction_fits(chunk, op, extra),
    ensures
        landed(
            chunk.code + extra,
            if op == OpCode::JumpIfFalse || op == OpCode::Jump {
                pending.insert(chunk.code.len() as int + 1)
            } else {
                pending
            },
        ),
        named(ChunkView { code: chunk.code + extra, ..chunk }, objects),
{
    let code = chunk.code;
    let longer = code + extra;
    let end = code.len() as int;
    let after = if op == OpCode::JumpIfFalse || op == OpCode::Jump {
        pending.insert(end + 1)
    } else {
        pending
    };
    lemma_whole_extends(code, op, extra);
    assert(longer[end] == extra[0]);
    assert forall|p: int| 0 <= p < longer.len() && #[trigger] boundary(longer, p) implies (p
        == end || (p < end && boundary(code, p))) by {
        if p > end {
            lemma_no_boundary_inside(longer, end, p);
        } else if p < end {
            lemma_walk_same(longer, code, 0, p);
        }
    }
    assert forall|p: int| 0 <= p < longer.len() && #[trigger] boundary(longer, p) implies match opcode_of(
        longer[p],
    ) {
        Some(OpCode::JumpIfFalse) | Some(OpCode::Jump) => p + 3 <= longer.len() && (after.contains(
            p + 1,
        ) || (p + 3 + offset_of(longer[p + 1], longer[p + 2]) <= longer.len() && boundary(
            longer,
            p + 3 + offset_of(longer[p + 1], longer[p + 2]),
        ))),
        Some(OpCode::Loop) => p + 3 <= longer.len() && offset_of(longer[p + 1], longer[p + 2]) <= p
            + 3 && boundary(longer, p + 3 - offset_of(longer[p + 1], longer[p + 2])),
        _ => true,
    } by {
        if p < end {
            assert(boundary(code, p));
            assert(longer[p] == code[p]);
            match opcode_of(code[p]) {
                Some(OpCode::JumpIfFalse) | Some(OpCode::Jump) => {
                    assert(longer[p + 1] == code[p + 1]);
                    assert(longer[p + 2] == code[p + 2]);
                    if !pending.contains(p + 1) {
                        let target = p + 3 + offset_of(code[p + 1], code[p + 2]);
                        assert(boundary(code, target));
                    }
                },
                Some(OpCode::Loop) => {
                    assert(longer[p + 1] == code[p + 1]);
                    assert(longer[p + 2] == code[p + 2]);
                    let target = p + 3 - offset_of(code[p + 1], code[p + 2]);
                    assert(boundary(code, target));
                },
                _ => {},
            }
        } else {
            assert(p == end);
            assert(opcode_of(longer[p]) == Some(op));
            if operand_width(op) == 2 {
                assert(longer[end + 1] == extra[1]);
                assert(longer[end + 2] == extra[2]);
                assert(longer.len() == end + 3);
            }
            if op == OpCode::Loop {
                let target = end + 3 - offset_of(extra[1], extra[2]);
                assert(boundary(code, target));
                assert(boundary(longer, target));
            } else if op == OpCode::JumpIfFalse || op == OpCode::Jump {
                assert(after.contains(p + 1));
            }
        }
    }
    assert forall|p: int| 0 <= p < longer.len() && #[trigger] boundary(longer, p) implies match opcode_of(
        longer[p],
    ) {
        Some(op) => names_constant(op) ==> p + 1 < longer.len() && operand_fits(
            chunk.constants,
            op,
            longer[p + 1],
        ),
        None => true,
    } by {
        if p < end {
            assert(boundary(code, p));
            assert(longer[p] == code[p]);
            if opcode_of(code[p]) is Some && names_constant(opcode_of(code[p])->0) {
                assert(longer[p + 1] == code[p + 1]);
            }
        } else {
            assert(p == end);
            if operand_width(op) == 1 {
                assert(longer[end + 1] == extra[1]);
            }
        }
    }
}

/// A well-formed chunk in which a pending jump gets the offset that leads to
/// the end of the code is well formed, and the jump is not pending any more.
pub proof fn lemma_formed_patched(
    chunk: ChunkView,
    objects: nat,
    pending: Set<int>,
    offset: int,
    low: u8,
    high: u8,
)
    requires
        whole(chunk.code),
        landed(chunk.code, pending),
        named(chunk, objects),
        jump_at(chunk.code, offset),
        offset + 2 + offset_of(low, high) == chunk.code.len(),
    ensures
        landed(chunk.code.update(offset, low).update(offset + 1, high), pending.remove(offset)),
        named(
            ChunkView { code: chunk.code.update(offset, low).update(offset + 1, high), ..chunk },
            objects,
        ),
{
    let code = chunk.code;
    let patched = code.update(offset, low).update(offset + 1, high);
    let start = offset - 1;
    lemma_whole_patched(code, offset, low, high);
    assert(jump_at(patched, offset)) by {
        assert(boundary(patched, start));
    }
    lemma_whole_patched(patched, offset, code[offset], code[offset + 1]);
    assert(patched.update(offset, code[offset]).update(offset + 1, code[offset + 1]) =~= code);
    assert forall|p: int| 0 <= p < patched.len() && #[trigger] boundary(patched, p) implies boundary(
        code,
        p,
    ) by {
    }
    assert forall|p: int| 0 <= p < patched.len() && #[trigger] boundary(patched, p) implies match opcode_of(
        patched[p],
    ) {
        Some(OpCode::JumpIfFalse) | Some(OpCode::Jump) => p + 3 <= patched.len() && (
        pending.remove(offset).contains(p + 1) || (p + 3 + offset_of(patched[p + 1], patched[p + 2])
            <= patched.len() && boundary(
            patched,
            p + 3 + offset_of(patched[p + 1], patched[p + 2]),
        ))),
        Some(OpCode::Loop) => p + 3 <= patched.len() && offset_of(patched[p + 1], patched[p + 2])
            <= p + 3 && boundary(patched, p + 3 - offset_of(patched[p + 1], patched[p + 2])),
        _ => true,
    } by {
        assert(boundary(code, p));
        if p == start {
            assert(boundary(patched, patched.len() as int));
        } else {
            if p > start {
                lemma_no_boundary_inside(code, start, p);
            } else {
                lemma_no_boundary_inside(code, p, start);
            }
            assert(patched[p] == code[p]);
            match opcode_of(code[p]) {
                Some(OpCode::JumpIfFalse) | Some(OpCode::Jump) => {
                    assert(patched[p + 1] == code[p + 1]);
                    assert(patched[p + 2] == code[p + 2]);
                    if !pending.contains(p + 1) {
                        let target = p + 3 + offset_of(code[p + 1], code[p + 2]);
                        assert(boundary(code, target));
                    }
                },
                Some(OpCode::Loop) => {
                    assert(patched[p + 1] == code[p + 1]);
                    assert(patched[p + 2] == code[p + 2]);
                    let target = p + 3 - offset_of(code[p + 1], code[p + 2]);
                    assert(boundary(code, target));
                },
                _ => {},
            }
        }
    }
    assert forall|p: int| 0 <= p < patched.len() && #[trigger] boundary(patched, p) implies match opcode_of(
        patched[p],
    ) {
        Some(op) => names_constant(op) ==> p + 1 < patched.len() && operand_fits(
            chunk.constants,
            op,
            patched[p + 1],
        ),
        None => true,
    } by {
        assert(boundary(code, p));
        if p != start {
            if p > start {
                lemma_no_boundary_inside(code, start, p);
            } else {
                lemma_no_boundary_inside(code, p, start);
            }
            assert(patched[p] == code[p]);
            if opcode_of(code[p]) is Some && names_constant(opcode_of(code[p])->0) {
                assert(patched[p + 1] == code[p + 1]);
            }
        }
    }
}

/// How many values the stack must hold for `op`.
pub open spec fn needs(op: OpCode) -> int {
    match op {
        OpCode::Not
        | OpCode::Negate
        | OpCode::Print
        | OpCode::Pop
        | OpCode::DefineGlobal
        | OpCode::SetGlobal
        | OpCode::SetLocal
        | OpCode::JumpIfFalse => 1,
        OpCode::Add
        | OpCode::Substract
        | OpCode::Multiply
        | OpCode::Divide
        | OpCode::Equal
        | OpCode::Greater
        | OpCode::Less => 2,
        _ => 0,
    }
}

/// By how many values `op` makes the stack deeper.
pub open spec fn effect(op: OpCode) -> int {
    match op {
        OpCode::AddConstant
        | OpCode::AddNil
        | OpCode::AddTrue
        | OpCode::AddFalse
        | OpCode::GetGlobal
        | OpCode::GetLocal => 1,
        OpCode::Add
        | OpCode::Substract
        | OpCode::Multiply
        | OpCode::Divide
        | OpCode::Equal
        | OpCode::Greater
        | OpCode::Less
        | OpCode::Print
        | OpCode::Pop
        | OpCode::DefineGlobal => -1,
        _ => 0,
    }
}

/// Whether the instruction behind `op` can be the next one to run.
pub open spec fn falls(op: OpCode) -> bool {
    op != OpCode::Jump && op != OpCode::Loop && op != OpCode::Return
}

/// Whether the operand of `op` is the slot of a local.
pub open spec fn uses_local(op: OpCode) -> bool {
    op == OpCode::GetLocal || op == OpCode::SetLocal
}

/// Whether the instruction at `p` fits the depths of the stack that `depths`
/// gives to the instructions: the stack is deep enough for it, a local that
/// it names is on the stack, the program returns on an empty stack, and
/// where the machine goes on after the instruction the stack is as deep as
/// the instruction leaves it. `jumps` gives the depth at the target of each
/// jump that has no offset yet, by the place of its operand.
pub open spec fn instruction_typed(
    code: Seq<u8>,
    depths: Map<int, int>,
    jumps: Map<int, int>,
    p: int,
) -> bool {
    let op = opcode_of(code[p])->0;
    let depth = depths[p];
    let next = p + 1 + operand_width(op);
    &&& depths.contains_key(p)
    &&& depth >= needs(op)
    &&& uses_local(op) ==> code[p + 1] < depth
    &&& op == OpCode::Return ==> depth == 0
    &&& falls(op) ==> depths.contains_key(next) && depths[next] == depth + effect(op)
    &&& op == OpCode::JumpIfFalse || op == OpCode::Jump ==> if jumps.contains_key(p + 1) {
        jumps[p + 1] == depth
    } else {
        depths.contains_key(p + 3 + offset_of(code[p + 1], code[p + 2])) && depths[p + 3
            + offset_of(code[p + 1], code[p + 2])] == depth
    }
    &&& op == OpCode::Loop ==> depths.contains_key(p + 3 - offset_of(code[p + 1], code[p + 2]))
        && depths[p + 3 - offset_of(code[p + 1], code[p + 2])] == depth
}

/// Whether every instruction of the code fits the depths `depths`, which
/// are given to places in the code and at its end only, and of which none
/// is negative.
pub open spec fn typed(code: Seq<u8>, depths: Map<int, int>, jumps: Map<int, int>) -> bool {
    &&& forall|p: int|
        0 <= p < code.len() && #[trigger] boundary(code, p) ==> instruction_typed(
            code,
            depths,
            jumps,
            p,
        )
    &&& forall|k: int| #[trigger] depths.contains_key(k) ==> 0 <= k <= code.len() && depths[k] >= 0
}

/// Whether `depths` gives an empty stack to the start of the code and to
/// each of the places `marks`.
pub open spec fn empty_at(depths: Map<int, int>, marks: Set<int>) -> bool {
    &&& depths.contains_key(0)
    &&& depths[0] == 0
    &&& forall|p: int| #[trigger] marks.contains(p) ==> depths.contains_key(p) && depths[p] == 0
}

/// Whether depths of the stack can be given to the instructions of the code
/// so that every instruction fits them, with an empty stack at the start
/// and at each of the places `marks`: then no instruction finds the stack
/// too shallow, the stack is empty whenever the program comes to one of the
/// places, and the program returns on an empty stack.
pub open spec fn balanced(code: Seq<u8>, marks: Set<int>) -> bool {
    exists|depths: Map<int, int>| #[trigger]
        typed(code, depths, Map::empty()) && empty_at(depths, marks)
}

/// What an added instruction must be for the code to stay typed: its end
/// can be reached, the stack is deep enough for it, and a jump back leads to
/// where the stack is as deep.
pub open spec fn instruction_flows(
    code: Seq<u8>,
    depths: Map<int, int>,
    op: OpCode,
    extra: Seq<u8>,
) -> bool {
    let end = code.len() as int;
    &&& extra.len() == 1 + operand_width(op)
    &&& opcode_of(extra[0]) == Some(op)
    &&& depths.contains_key(end)
    &&& depths[end] >= needs(op)
    &&& uses_local(op) ==> extra[1] < depths[end]
    &&& op == OpCode::Return ==> depths[end] == 0
    &&& op == OpCode::Loop ==> 3 <= offset_of(extra[1], extra[2]) <= end + 3
        && depths.contains_key(end + 3 - offset_of(extra[1], extra[2])) && depths[end + 3
        - offset_of(extra[1], extra[2])] == depths[end]
}

/// The depths after the instruction `op` is added to code of length `end`.
pub open spec fn depths_after(depths: Map<int, int>, end: int, op: OpCode) -> Map<int, int> {
    if falls(op) {
        depths.insert(end + 1 + operand_width(op), depths[end] + effect(op))
    } else {
        depths
    }
}

/// The jumps without an offset after the instruction `op` is added to code
/// of length `end`.
pub open spec fn jumps_after(jumps: Map<int, int>, depths: Map<int, int>, end: int, op: OpCode) -> Map<
    int,
    int,
> {
    if op == OpCode::JumpIfFalse || op == OpCode::Jump {
        jumps.insert(end + 1, depths[end])
    } else {
        jumps
    }
}

/// Typed code to which an instruction that flows is added is typed.
pub proof fn lemma_typed_extends(
    code: Seq<u8>,
    depths: Map<int, int>,
    jumps: Map<int, int>,
    op: OpCode,
    extra: Seq<u8>,
)
    requires
        whole(code),
        typed(code, depths, jumps),
        instruction_flows(code, depths, op, extra),
        forall|k: int| #[trigger] jumps.contains_key(k) ==> k + 2 <= code.len(),
    ensures
        typed(
            code + extra,
            depths_after(depths, code.len() as int, op),
            jumps_after(jumps, depths, code.len() as int, op),
        ),
{
    let longer = code + extra;
    let end = code.len() as int;
    let more = depths_after(depths, end, op);
    let later = jumps_after(jumps, depths, end, op);
    lemma_whole_extends(code, op, extra);
    assert(longer[end] == extra[0]);
    assert forall|p: int| 0 <= p < longer.len() && #[trigger] boundary(longer, p) implies instruction_typed(
        longer,
        more,
        later,
        p,
    ) by {
        if p > end {
            lemma_no_boundary_inside(longer, end, p);
        } else if p < end {
            lemma_walk_same(longer, code, 0, p);
            assert(boundary(code, p));
            lemma_no_boundary_inside(code, p, end);
            let at = opcode_of(code[p])->0;
            assert(longer[p] == code[p]);
            assert(instruction_typed(code, depths, jumps, p));
            if operand_width(at) >= 1 {
                assert(longer[p + 1] == code[p + 1]);
            }
            if operand_width(at) == 2 {
                assert(longer[p + 2] == code[p + 2]);
            }
        } else {
            if operand_width(op) >= 1 {
                assert(longer[end + 1] == extra[1]);
            }
            if operand_width(op) == 2 {
                assert(longer[end + 2] == extra[2]);
            }
        }
    }
}

/// Typed code in which a jump without an offset gets the offset that leads
/// to the end of the code is typed, where the stack at the end is as deep as
/// at the jump, or no instruction leads to the end yet.
pub proof fn lemma_typed_patched(
    code: Seq<u8>,
    depths: Map<int, int>,
    jumps: Map<int, int>,
    offset: int,
    low: u8,
    high: u8,
)
    requires
        whole(code),
        typed(code, depths, jumps),
        jump_at(code, offset),
        jumps.contains_key(offset),
        offset + 2 + offset_of(low, high) == code.len(),
        depths.contains_key(code.len() as int) ==> depths[code.len() as int] == jumps[offset],
    ensures
        typed(
            code.update(offset, low).update(offset + 1, high),
            depths.insert(code.len() as int, jumps[offset]),
            jumps.remove(offset),
        ),
{
    let patched = code.update(offset, low).update(offset + 1, high);
    let start = offset - 1;
    let end = code.len() as int;
    let more = depths.insert(end, jumps[offset]);
    let fewer = jumps.remove(offset);
    assert(instruction_typed(code, depths, jumps, start));
    lemma_whole_patched(code, offset, low, high);
    assert(jump_at(patched, offset)) by {
        assert(boundary(patched, start));
    }
    lemma_whole_patched(patched, offset, code[offset], code[offset + 1]);
    assert(patched.update(offset, code[offset]).update(offset + 1, code[offset + 1]) =~= code);
    assert forall|p: int| 0 <= p < patched.len() && #[trigger] boundary(patched, p) implies instruction_typed(
        patched,
        more,
        fewer,
        p,
    ) by {
        assert(boundary(code, p));
        assert(instruction_typed(code, depths, jumps, p));
        if p == start {
            assert(patched[p] == code[p]);
        } else {
            if p > start {
                lemma_no_boundary_inside(code, start, p);
            } else {
                lemma_no_boundary_inside(code, p, start);
            }
            assert(patched[p] == code[p]);
            lemma_no_boundary_inside(code, p, end);
            let at = opcode_of(code[p])->0;
            if operand_width(at) >= 1 {
                assert(patched[p + 1] == code[p + 1]);
            }
            if operand_width(at) == 2 {
                assert(patched[p + 2] == code[p + 2]);
            }
        }
    }
}

/// Whole code to which an instruction is added is whole, and keeps its
/// instructions.
pub proof fn lemma_whole_extends(code: Seq<u8>, op: OpCode, extra: Seq<u8>)
    requires
        whole(code),
        extra.len() == 1 + operand_width(op),
        opcode_of(extra[0]) == Some(op),
    ensures
        whole(code + extra),
        keeps(code, code + extra),
        boundary(code + extra, code.len() as int),
{
    let longer = code + extra;
    let end = code.len() as int;
    lemma_walk_same(code, longer, 0, end);
    assert(longer[end] == extra[0]);
    assert(walk(longer, end + 1 + operand_width(op), longer.len() as int));
    assert(walk(longer, end, longer.len() as int));
    lemma_walk_join(longer, 0, end, longer.len() as int);
    assert forall|p: int| 0 <= p <= code.len() && #[trigger] boundary(code, p) implies boundary(
        longer,
        p,
    ) && (p < code.len() ==> opcode_of(longer[p]) == opcode_of(code[p])) by {
        lemma_walk_same(code, longer, 0, p);
    }
}

/// Whole code in which the operand of a jump is replaced is whole, and
/// keeps its instructions.
pub proof fn lemma_whole_patched(code: Seq<u8>, offset: int, low: u8, high: u8)
    requires
        whole(code),
        jump_at(code, offset),
    ensures
        whole(code.update(offset, low).update(offset + 1, high)),
        keeps(code, code.update(offset, low).update(offset + 1, high)),
{
    let patched = code.update(offset, low).update(offset + 1, high);
    let start = offset - 1;
    let end = code.len() as int;
    assert forall|p: int| 0 <= p <= code.len() && #[trigger] boundary(code, p) implies boundary(
        patched,
        p,
    ) && (p < code.len() ==> opcode_of(patched[p]) == opcode_of(code[p])) by {
        if p <= start {
            lemma_walk_same(code, patched, 0, p);
        } else {
            lemma_walk_split(code, 0, start, p);
            assert(walk(code, start + 3, p));
            lemma_walk_same(code, patched, 0, start);
            lemma_walk_same(code, patched, start + 3, p);
            assert(walk(patched, start, p));
            lemma_walk_join(patched, 0, start, p);
        }
    }
    assert(boundary(code, end));
}

/// The two bytes of a jump offset: the low byte first.
pub open spec fn offset_bytes(offset: u16) -> (u8, u8) {
    ((offset % 256) as u8, (offset / 256) as u8)
}

/// The jump offset that two bytes hold.
pub open spec fn offset_of(low: u8, high: u8) -> u16 {
    (low + 256 * high) as u16
}

/// The two bytes of a jump offset, the low byte first.
pub fn offset_to_bytes(offset: u16) -> (bytes: (u8, u8))
    ensures
        bytes == offset_bytes(offset),
        offset_of(bytes.0, bytes.1) == offset,
{
    ((offset % 256) as u8, (offset / 256) as u8)
}

/// The jump offset that two bytes hold, the low byte first.
pub fn offset_from_bytes(low: u8, high: u8) -> (offset: u16)
    ensures
        offset == offset_of(low, high),
        offset_bytes(offset) == (low, high),
{
    low as u16 + 256 * (high as u16)
}

impl OpCode {
    /// The byte that stands for this operation.
    pub fn byte(self) -> (byte: u8)
        ensures
            byte == opcode_byte(self),
            opcode_of(byte) == Some(self),
    {
        match self {
            OpCode::Return => 0,
            OpCode::AddConstant => 1,
            OpCode::AddNil => 2,
            OpCode::AddTrue => 3,
            OpCode::AddFalse => 4,
            OpCode::Equal => 5,
            OpCode::Greater => 6,
            OpCode::Less => 7,
            OpCode::Negate => 8,
            OpCode::Add => 9,
            OpCode::Substract => 10,
            OpCode::Multiply => 11,
            OpCode::Divide => 12,
            OpCode::Not => 13,
            OpCode::Print => 14,
            OpCode::Pop => 15,
            OpCode::DefineGlobal => 16,
            OpCode::GetGlobal => 17,
            OpCode::SetGlobal => 18,
            OpCode::GetLocal => 19,
            OpCode::SetLocal => 20,
            OpCode::JumpIfFalse => 21,
            OpCode::Jump => 22,
            OpCode::Loop => 23,
        }
    }

    /// The operation that `byte` stands for.
    pub fn from_repr(byte: u8) -> (op: Option<OpCode>)
        ensures
            op == opcode_of(byte),
            op is Some ==> opcode_byte(op->0) == byte,
    {
        match byte {
            0 => Some(OpCode::Return),
            1 => Some(OpCode::AddConstant),
            2 => Some(OpCode::AddNil),
            3 => Some(OpCode::AddTrue),
            4 => Some(OpCode::AddFalse),
            5 => Some(OpCode::Equal),
            6 => Some(OpCode::Greater),
            7 => Some(OpCode::Less),
            8 => Some(OpCode::Negate),
            9 => Some(OpCode::Add),
            10 => Some(OpCode::Substract),
            11 => Some(OpCode::Multiply),
            12 => Some(OpCode::Divide),
            13 => Some(OpCode::Not),
            14 => Some(OpCode::Print),
            15 => Some(OpCode::Pop),
            16 => Some(OpCode::DefineGlobal),
            17 => Some(OpCode::GetGlobal),
            18 => Some(OpCode::SetGlobal),
            19 => Some(OpCode::GetLocal),
            20 => Some(OpCode::SetLocal),
            21 => Some(OpCode::JumpIfFalse),
            22 => Some(OpCode::Jump),
            23 => Some(OpCode::Loop),
            _ => None,
        }
    }

    /// How many operand bytes follow this operation's byte.
    pub fn operands(self) -> (width: usize)
        ensures
            width == operand_width(self),
    {
        match self {
            OpCode::AddConstant
            | OpCode::DefineGlobal
            | OpCode::GetGlobal
            | OpCode::SetGlobal
            | OpCode::GetLocal
            | OpCode::SetLocal => 1,
            OpCode::JumpIfFalse | OpCode::Jump | OpCode::Loop => 2,
            _ => 0,
        }
    }

    /// The name under which a listing shows this operation.
    pub fn name(self) -> (name: &'static str)
        ensures
            name@ == opcode_name(self),
    {
        match self {
            OpCode::Return => "OP_RETURN",
            OpCode::AddConstant => "OP_CONSTANT",
            OpCode::AddNil => "OP_NIL",
            OpCode::AddTrue => "OP_TRUE",
            OpCode::AddFalse => "OP_FALSE",
            OpCode::Equal => "OP_EQUAL",
            OpCode::Greater => "OP_GREATER",
            OpCode::Less => "OP_LESS",
            OpCode::Negate => "OP_NEGATE",
            OpCode::Add => "OP_ADD",
            OpCode::Substract => "OP_SUBSTRACT",
            OpCode::Multiply => "OP_MULTIPLY",
            OpCode::Divide => "OP_DIVIDE",
            OpCode::Not => "OP_NOT",
            OpCode::Print => "OP_PRINT",
            OpCode::Pop => "OP_POP",
            OpCode::DefineGlobal => "OP_DEFINE_GLOBAL",
            OpCode::GetGlobal => "OP_GET_GLOBAL",
            OpCode::SetGlobal => "OP_SET_GLOBAL",
            OpCode::GetLocal => "OP_GET_LOCAL",
            OpCode::SetLocal => "OP_SET_LOCAL",
            OpCode::JumpIfFalse => "OP_JUMP_IF_FALSE",
            OpCode::Jump => "OP_JUMP",
            OpCode::Loop => "OP_LOOP",
        }
    }
}

/// The name under which a listing shows `op`.
pub open spec fn opcode_name(op: OpCode) -> Seq<char> {
    match op {
        OpCode::Return => "OP_RETURN"@,
        OpCode::AddConstant => "OP_CONSTANT"@,
        OpCode::AddNil => "OP_NIL"@,
        OpCode::AddTrue => "OP_TRUE"@,
        OpCode::AddFalse => "OP_FALSE"@,
        OpCode::Equal => "OP_EQUAL"@,
        OpCode::Greater => "OP_GREATER"@,
        OpCode::Less => "OP_LESS"@,
        OpCode::Negate => "OP_NEGATE"@,
        OpCode::Add => "OP_ADD"@,
        OpCode::Substract => "OP_SUBSTRACT"@,
        OpCode::Multiply => "OP_MULTIPLY"@,
        OpCode::Divide => "OP_DIVIDE"@,
        OpCode::Not => "OP_NOT"@,
        OpCode::Print => "OP_PRINT"@,
        OpCode::Pop => "OP_POP"@,
        OpCode::DefineGlobal => "OP_DEFINE_GLOBAL"@,
        OpCode::GetGlobal => "OP_GET_GLOBAL"@,
        OpCode::SetGlobal => "OP_SET_GLOBAL"@,
        OpCode::GetLocal => "OP_GET_LOCAL"@,
        OpCode::SetLocal => "OP_SET_LOCAL"@,
        OpCode::JumpIfFalse => "OP_JUMP_IF_FALSE"@,
        OpCode::Jump => "OP_JUMP"@,
        OpCode::Loop => "OP_LOOP"@,
    }
}

/// The largest number of constants that one chunk holds: what one byte can
/// index.
pub const MAX_CONSTANTS: usize = 256;

/// The constants of a chunk.
#[derive(Clone, Debug, PartialEq)]
pub struct Constants {
    values: Array<Value>,
}

impl View for Constants {
    type V = Seq<Value>;

    closed spec fn view(&self) -> Seq<Value> {
        self.values@
    }
}

impl Constants {
    pub closed spec fn wf(&self) -> bool {
        self.values.wf()
    }

    pub fn new() -> (constants: Self)
        ensures
            constants.wf(),
            constants@ == Seq::<Value>::empty(),
    {
        Self { values: Array::new() }
    }

    pub fn len(&self) -> (len: usize)
        ensures
            len == self@.len(),
    {
        self.values.len()
    }

    pub fn get(&self, index: usize) -> (value: Option<Value>)
        requires
            self.wf(),
        ensures
            value == if index < self@.len() {
                Some(self@[index as int])
            } else {
                None
            },
    {
        match self.values.get(index) {
            Some(value) => Some(*value),
            None => None,
        }
    }

    /// Appends `value`.
    pub fn write(&mut self, value: Value)
        requires
            old(self).wf(),
        ensures
            final(self).wf(),
            final(self)@ == old(self)@.push(value),
    {
        self.values.write(value)
    }
}

/// What a chunk holds, for contracts.
pub struct ChunkView {
    pub code: Seq<u8>,
    pub constants: Seq<Value>,
    pub lines: Seq<usize>,
}

/// A chunk of bytecode.
#[derive(Clone, Debug, PartialEq)]
pub struct Chunk {
    code: Array<u8>,
    constants: Constants,
    lines: Array<usize>,
}

impl View for Chunk {
    type V = ChunkView;

    closed spec fn view(&self) -> ChunkView {
        ChunkView { code: self.code@, constants: self.constants@, lines: self.lines@ }
    }
}

impl Chunk {
    /// The chunk's invariant: each byte of code has its line, and a byte can
    /// index every constant.
    pub closed spec fn wf(&self) -> bool {
        &&& self.code.wf()
        &&& self.constants.wf()
        &&& self.lines.wf()
        &&& self.code@.len() == self.lines@.len()
        &&& self.constants@.len() <= MAX_CONSTANTS
    }

    pub proof fn lemma_wf(&self)
        requires
            self.wf(),
        ensures
            self@.code.len() == self@.lines.len(),
            self@.constants.len() <= MAX_CONSTANTS,
    {
    }

    pub fn new() -> (chunk: Self)
        ensures
            chunk.wf(),
            chunk@ == (ChunkView {
                code: Seq::empty(),
                constants: Seq::empty(),
                lines: Seq::empty(),
            }),
    {
        Self { code: Array::new(), constants: Constants::new(), lines: Array::new() }
    }

    /// Appends `byte`, which comes from line `line` of the source.
    pub fn write(&mut self, byte: u8, line: usize)
        requires
            old(self).wf(),
        ensures
            final(self).wf(),
            final(self)@ == (ChunkView {
                code: old(self)@.code.push(byte),
                lines: old(self)@.lines.push(line),
                ..old(self)@
            }),
    {
        self.code.write(byte);
        self.lines.write(line);
    }

    /// Appends `value` to the constants and hands out its index, or `None`
    /// where the chunk holds `MAX_CONSTANTS` constants already.
    pub fn add_constant(&mut self, value: Value) -> (index: Option<usize>)
        requires
            old(self).wf(),
        ensures
            final(self).wf(),
            match index {
                Some(index) => index == old(self)@.constants.len() && index < MAX_CONSTANTS
                    && final(self)@ == (ChunkView {
                    constants: old(self)@.constants.push(value),
                    ..old(self)@
                }),
                None => old(self)@.constants.len() == MAX_CONSTANTS && final(self)@ == old(self)@,
            },
    {
        if self.constants.len() >= MAX_CONSTANTS {
            return None;
        }
        self.constants.write(value);
        Some(self.constants.len() - 1)
    }

    /// Replaces the byte of code at `offset`; its line stays.
    pub fn patch(&mut self, offset: usize, byte: u8)
        requires
            old(self).wf(),
            offset < old(self)@.code.len(),
        ensures
            final(self).wf(),
            final(self)@ == (ChunkView {
                code: old(self)@.code.update(offset as int, byte),
                ..old(self)@
            }),
    {
        self.code.set(offset, byte);
    }

    pub fn len(&self) -> (len: usize)
        ensures
            len == self@.code.len(),
    {
        self.code.len()
    }

    pub fn code(&self) -> (code: &Array<u8>)
        requires
            self.wf(),
        ensures
            code.wf(),
            code@ == self@.code,
    {
        &self.code
    }

    pub fn constants(&self) -> (constants: &Constants)
        requires
            self.wf(),
        ensures
            constants.wf(),
            constants@ == self@.constants,
    {
        &self.constants
    }

    pub fn lines(&self) -> (lines: &Array<usize>)
        requires
            self.wf(),
        ensures
            lines.wf(),
            lines@ == self@.lines,
    {
        &self.lines
    }

    /// The byte of code at `offset`, if there is one.
    pub fn byte_at(&self, offset: usize) -> (byte: Option<u8>)
        requires
            self.wf(),
        ensures
            byte == if offset < self@.code.len() {
                Some(self@.code[offset as int])
            } else {
                None
            },
    {
        match self.code.get(offset) {
            Some(byte) => Some(*byte),
            None => None,
        }
    }

    /// The source line of the byte of code at `offset`, if there is one.
    pub fn line_at(&self, offset: usize) -> (line: Option<usize>)
        requires
            self.wf(),
        ensures
            line == if offset < self@.code.len() {
                Some(self@.lines[offset as int])
            } else {
                None
            },
    {
        match self.lines.get(offset) {
            Some(line) => Some(*line),
            None => None,
        }
    }
}

} // verus!