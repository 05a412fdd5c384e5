//! Listings of bytecode: one line for each instruction, with its place in
//! the code, its source line, its name and its operand.
//!
//! A listing is a sequence of pieces: texts, and numbers by their bit
//! patterns, which whoever shows the listing writes out in between.

use crate::bytecode::{
    names_constant, offset_from_bytes, offset_of, opcode_name, opcode_of, operand_width, Chunk,
    ChunkView, OpCode,
};
use crate::heap::Heap;
use crate::value::{render, rendered, Output, OutputView};
use vstd::prelude::*;
use vstd::string::*;

verus! {

/// The character of the digit `d`.
pub open spec fn digit_char(d: nat) -> char {
    if d == 0 {
        '0'
    } else if d == 1 {
        '1'
    } else if d == 2 {
        '2'
    } else if d == 3 {
        '3'
    } else if d == 4 {
        '4'
    } else if d == 5 {
        '5'
    } else if d == 6 {
        '6'
    } else if d == 7 {
        '7'
    } else if d == 8 {
        '8'
    } else {
        '9'
    }
}

/// `n` in decimal digits.
pub open spec fn decimal(n: nat) -> Seq<char>
    decreases n,
{
    if n < 10 {
        seq![digit_char(n)]
    } else {
        decimal(n / 10).push(digit_char(n % 10))
    }
}

/// `i` in decimal digits, with a minus sign where it is negative.
pub open spec fn decimal_int(i: int) -> Seq<char> {
    if i < 0 {
        seq!['-'] + decimal((-i) as nat)
    } else {
        decimal(i as nat)
    }
}

/// `count` times the character `fill`; nothing where `count` is negative.
pub open spec fn filler(count: int, fill: char) -> Seq<char> {
    Seq::new(
        if count > 0 {
            count as nat
        } else {
            0
        },
        |i: int| fill,
    )
}

/// `text`, filled up at its end to `width` characters.
pub open spec fn pad_end(text: Seq<char>, width: nat, fill: char) -> Seq<char> {
    text + filler(width - text.len(), fill)
}

/// `text`, filled up at its start to `width` characters.
pub open spec fn pad_start(text: Seq<char>, width: nat, fill: char) -> Seq<char> {
    filler(width - text.len(), fill) + text
}

/// The column with the place of an instruction in the code.
pub open spec fn offset_column(offset: int) -> Seq<char> {
    pad_end(decimal(offset as nat), 4, '0') + " "@
}

/// The column with the source line of the instruction at `offset`: a bar
/// where the byte before it in the code comes from the same line.
pub open spec fn line_column(lines: Seq<usize>, offset: int) -> Seq<char> {
    if offset > 0 && lines[offset] == lines[offset - 1] {
        "   | "@
    } else {
        pad_start(decimal(lines[offset] as nat), 4, '0') + " "@
    }
}

/// The name of an instruction and its operand, in their columns.
pub open spec fn operand_columns(name: Seq<char>, operand: nat) -> Seq<char> {
    pad_end(name, 16, ' ') + " "@ + pad_end(decimal(operand), 4, ' ')
}

/// What a listing shows for the constant at `index`.
pub open spec fn constant_piece(chunk: ChunkView, heap: Seq<Seq<char>>, index: u8) -> OutputView {
    if index < chunk.constants.len() {
        match rendered(heap, chunk.constants[index as int]) {
            Some(output) => output,
            None => OutputView::Text("?"@),
        }
    } else {
        OutputView::Text("?"@)
    }
}

/// Where the jump at `offset` with the operand `jump` leads: `Loop` jumps
/// back, the others jump on.
pub open spec fn jump_target(op: OpCode, offset: int, jump: u16) -> int {
    if op == OpCode::Loop {
        offset + 3 - jump
    } else {
        offset + 3 + jump
    }
}

/// The instruction at `offset` is cut off by the end of the code.
pub open spec fn cut_off(chunk: ChunkView, offset: int) -> bool {
    match opcode_of(chunk.code[offset]) {
        Some(op) => offset + operand_width(op) >= chunk.code.len(),
        None => false,
    }
}

/// The place in the code of the instruction after the one at `offset`.
pub open spec fn next_offset(chunk: ChunkView, offset: int) -> int {
    match opcode_of(chunk.code[offset]) {
        None => offset + 1,
        Some(op) => if cut_off(chunk, offset) {
            chunk.code.len() as int
        } else {
            offset + 1 + operand_width(op)
        },
    }
}

/// The line of a listing for the instruction at `offset`, which lies in the
/// code: its place, its source line, its name, and its operand if it has one:
/// a constant with its index and what it holds, a local with its slot, a jump
/// with its own place and the place it leads to.
pub open spec fn instruction_listing(chunk: ChunkView, heap: Seq<Seq<char>>, offset: int) -> Seq<
    OutputView,
> {
    let start = offset_column(offset) + line_column(chunk.lines, offset);
    match opcode_of(chunk.code[offset]) {
        None => seq![
            OutputView::Text(
                start + "unknown opcode "@ + decimal(chunk.code[offset] as nat) + "\n"@,
            ),
        ],
        Some(op) => if cut_off(chunk, offset) || operand_width(op) == 0 {
            seq![OutputView::Text(start + opcode_name(op) + "\n"@)]
        } else if names_constant(op) {
            seq![
                OutputView::Text(
                    start + operand_columns(opcode_name(op), chunk.code[offset + 1] as nat) + " '"@,
                ),
                constant_piece(chunk, heap, chunk.code[offset + 1]),
                OutputView::Text("'\n"@),
            ]
        } else if operand_width(op) == 1 {
            seq![
                OutputView::Text(
                    start + operand_columns(opcode_name(op), chunk.code[offset + 1] as nat) + "\n"@,
                ),
            ]
        } else {
            seq![
                OutputView::Text(
                    start + operand_columns(opcode_name(op), offset as nat) + " -> "@
                        + decimal_int(
                        jump_target(
                            op,
                            offset,
                            offset_of(chunk.code[offset + 1], chunk.code[offset + 2]),
                        ),
                    ) + "\n"@,
                ),
            ]
        },
    }
}

/// The lines of a listing for the instructions from `offset` to the end of
/// the code.
pub open spec fn listing_from(chunk: ChunkView, heap: Seq<Seq<char>>, offset: int) -> Seq<
    OutputView,
>
    decreases chunk.code.len() - offset,
{
    if 0 <= offset < chunk.code.len() && offset < next_offset(chunk, offset) {
        instruction_listing(chunk, heap, offset) + listing_from(
            chunk,
            heap,
            next_offset(chunk, offset),
        )
    } else {
        Seq::empty()
    }
}

/// The headline of a listing.
pub open spec fn headline(name: Seq<char>) -> OutputView {
    OutputView::Text("== "@ + name + " ==\n"@)
}

/// The listing of a chunk under the name `name`.
pub open spec fn chunk_listing(chunk: ChunkView, heap: Seq<Seq<char>>, name: Seq<char>) -> Seq<
    OutputView,
> {
    seq![headline(name)] + listing_from(chunk, heap, 0)
}

/// The pieces as contracts see them.
pub open spec fn views(pieces: Seq<Output>) -> Seq<OutputView> {
    Seq::new(pieces.len(), |i: int| pieces[i]@)
}

fn digit_text(d: u128) -> (text: &'static str)
    requires
        d < 10,
    ensures
        text@ == seq![digit_char(d as nat)],
{
    proof {
        reveal_strlit("0");
        reveal_strlit("1");
        reveal_strlit("2");
        reveal_strlit("3");
        reveal_strlit("4");
        reveal_strlit("5");
        reveal_strlit("6");
        reveal_strlit("7");
        reveal_strlit("8");
        reveal_strlit("9");
    }
    let text = match d {
        0 => "0",
        1 => "1",
        2 => "2",
        3 => "3",
        4 => "4",
        5 => "5",
        6 => "6",
        7 => "7",
        8 => "8",
        _ => "9",
    };
    assert(text@ =~= seq![digit_char(d as nat)]);
    text
}

/// `n` in decimal digits.
pub fn decimal_text(n: u128) -> (text: String)
    ensures
        text@ == decimal(n as nat),
    decreases n,
{
    if n < 10 {
        digit_text(n).to_owned()
    } else {
        let mut text = decimal_text(n / 10);
        text.append(digit_text(n % 10));
        text
    }
}

/// `text`, filled up with `fill` at its end or at its start to `width`
/// characters.
fn padded(text: String, width: usize, fill: &str, at_end: bool) -> (result: String)
    requires
        fill@.len() == 1,
    ensures
        result@ == if at_end {
            pad_end(text@, width as nat, fill@[0])
        } else {
            pad_start(text@, width as nat, fill@[0])
        },
{
    let length = text.as_str().unicode_len();
    let mut filling = String::new();
    let mut count: usize = 0;
    while length < width && count < width - length
        invariant
            fill@.len() == 1,
            length == text@.len(),
            length < width ==> count <= width - length,
            length >= width ==> count == 0,
            filling@ == filler(count as int, fill@[0]),
        decreases width - count,
    {
        filling.append(fill);
        count += 1;
        assert(filling@ =~= filler(count as int, fill@[0]));
    }
    assert(count as int == if length < width {
        width - length
    } else {
        0
    });
    assert(filling@ =~= filler(width - length, fill@[0]));
    if at_end {
        let mut result = text;
        result.append(filling.as_str());
        result
    } else {
        filling.append(text.as_str());
        filling
    }
}

/// A bytecode disassembler.
///
/// Takes a chunk as an input and disassembles the bytecode into a human
/// readable format.
pub struct Disassembler<'d> {
    chunk: &'d Chunk,
    heap: &'d Heap,
    name: &'d str,
    offset: usize,
    output: Vec<Output>,
}

impl<'d> Disassembler<'d> {
    pub closed spec fn wf(&self) -> bool {
        self.chunk.wf()
    }

    /// The chunk that is listed.
    pub closed spec fn chunk(&self) -> ChunkView {
        self.chunk@
    }

    /// The heap with the objects of the chunk's strings.
    pub closed spec fn heap(&self) -> Seq<Seq<char>> {
        self.heap@
    }

    pub closed spec fn name(&self) -> Seq<char> {
        self.name@
    }

    /// The place in the code at which the listing goes on.
    pub closed spec fn offset(&self) -> int {
        self.offset as int
    }

    /// The listing so far.
    pub closed spec fn output(&self) -> Seq<OutputView> {
        views(self.output@)
    }

    pub fn new(chunk: &'d Chunk, name: &'d str, heap: &'d Heap) -> (disassembler: Self)
        requires
            chunk.wf(),
        ensures
            disassembler.wf(),
            disassembler.chunk() == chunk@,
            disassembler.heap() == heap@,
            disassembler.name() == name@,
            disassembler.offset() == 0,
            disassembler.output() == Seq::<OutputView>::empty(),
    {
        let disassembler = Self { chunk, heap, name, offset: 0, output: Vec::new() };
        assert(disassembler.output() =~= Seq::<OutputView>::empty());
        disassembler
    }

    /// Adds the headline and the lines of the instructions from `offset` on
    /// to the listing, and hands the listing out.
    pub fn disassemble(&mut self) -> (listing: &Vec<Output>)
        requires
            old(self).wf(),
        ensures
            final(self).wf(),
            final(self).chunk() == old(self).chunk(),
            final(self).heap() == old(self).heap(),
            final(self).name() == old(self).name(),
            final(self).output() == old(self).output() + seq![headline(old(self).name())]
                + listing_from(old(self).chunk(), old(self).heap(), old(self).offset()),
            final(self).offset() == if old(self).offset() < old(self).chunk().code.len() {
                old(self).chunk().code.len() as int
            } else {
                old(self).offset()
            },
            views(listing@) == final(self).output(),
    {
        let mut head = "== ".to_owned();
        head.append(self.name);
        head.append(" ==\n");
        self.output.push(Output::Text(head));
        assert(views(self.output@) =~= old(self).output() + seq![headline(old(self).name())]);
        let length = self.chunk.len();
        proof {
            self.chunk.lemma_wf();
        }
        while self.offset < length
            invariant
                self.wf(),
                length == self.chunk@.code.len(),
                self.chunk == old(self).chunk,
                self.heap == old(self).heap,
                self.name == old(self).name,
                self.offset == old(self).offset || (old(self).offset < length && self.offset
                    <= length),
                views(self.output@) + listing_from(self.chunk@, self.heap@, self.offset as int)
                    == old(self).output() + seq![headline(old(self).name())] + listing_from(
                    old(self).chunk@,
                    old(self).heap@,
                    old(self).offset as int,
                ),
            decreases length - self.offset,
        {
            let ghost before = views(self.output@);
            let mut line = self.disassemble_current_instruction();
            proof {
                let rest = listing_from(self.chunk@, self.heap@, self.offset as int);
                assert(before + (views(line@) + rest) =~= (before + views(line@)) + rest);
            }
            let ghost pieces = line@;
            self.output.append(&mut line);
            assert(views(self.output@) =~= before + views(pieces));
        }
        assert(listing_from(self.chunk@, self.heap@, self.offset as int) =~= Seq::<
            OutputView,
        >::empty());
        assert(views(self.output@) + Seq::<OutputView>::empty() =~= views(self.output@));
        &self.output
    }

    /// The listing of `chunk` under the name `name`.
    pub fn disassemble_chunk(chunk: &'d Chunk, name: &'d str, heap: &'d Heap) -> (listing: Vec<
        Output,
    >)
        requires
            chunk.wf(),
        ensures
            views(listing@) == chunk_listing(chunk@, heap@, name@),
    {
        let mut disassembler = Self::new(chunk, name, heap);
        disassembler.disassemble();
        assert(Seq::<OutputView>::empty() + seq![headline(name@)] =~= seq![headline(name@)]);
        disassembler.output
    }

    /// The line of the instruction at `offset`, which lies in the code. The
    /// listing so far and the place at which it goes on stay.
    pub fn disassemble_instruction(&mut self, offset: usize) -> (listing: Vec<Output>)
        requires
            old(self).wf(),
            offset < old(self).chunk().code.len(),
        ensures
            final(self).wf(),
            final(self).chunk() == old(self).chunk(),
            final(self).heap() == old(self).heap(),
            final(self).name() == old(self).name(),
            final(self).offset() == old(self).offset(),
            final(self).output() == old(self).output(),
            views(listing@) == instruction_listing(old(self).chunk(), old(self).heap(), offset as int),
    {
        // This is so we can keep using the instance after we have called this function.
        let old_offset = self.offset;
        self.set_offset(offset);
        let result = self.disassemble_current_instruction();
        self.offset = old_offset;
        result
    }

    /// The line of the instruction at `offset`; `offset` moves behind it.
    fn disassemble_current_instruction(&mut self) -> (line: Vec<Output>)
        requires
            old(self).wf(),
            old(self).offset < old(self).chunk@.code.len(),
        ensures
            final(self).wf(),
            final(self).chunk == old(self).chunk,
            final(self).heap == old(self).heap,
            final(self).name == old(self).name,
            final(self).output == old(self).output,
            final(self).offset == next_offset(old(self).chunk@, old(self).offset as int),
            old(self).offset < final(self).offset <= old(self).chunk@.code.len(),
            views(line@) == instruction_listing(old(self).chunk@, old(self).heap@, old(self).offset as int),
    {
        proof {
            self.chunk.lemma_wf();
            reveal_strlit("0");
            reveal_strlit(" ");
        }
        let offset = self.offset;
        let length = self.chunk.len();
        let mut start = padded(decimal_text(offset as u128), 4, "0", true);
        start.append(" ");
        let line = match self.chunk.line_at(offset) {
            Some(line) => line,
            None => 0,
        };
        let same_line = if offset > 0 {
            match self.chunk.line_at(offset - 1) {
                Some(previous) => previous == line,
                None => false,
            }
        } else {
            false
        };
        if same_line {
            start.append("   | ");
        } else {
            let column = padded(decimal_text(line as u128), 4, "0", false);
            start.append(column.as_str());
            start.append(" ");
        }
        assert(start@ =~= offset_column(offset as int) + line_column(
            self.chunk@.lines,
            offset as int,
        ));
        let byte = match self.chunk.byte_at(offset) {
            Some(byte) => byte,
            None => 0,
        };
        let op = match OpCode::from_repr(byte) {
            Some(op) => op,
            None => {
                start.append("unknown opcode ");
                start.append(decimal_text(byte as u128).as_str());
                start.append("\n");
                self.offset = offset + 1;
                let mut pieces = Vec::new();
                pieces.push(Output::Text(start));
                assert(views(pieces@) =~= instruction_listing(
                    self.chunk@,
                    self.heap@,
                    offset as int,
                ));
                return pieces;
            },
        };
        let width = op.operands();
        if width >= length - offset {
            self.offset = length;
            return self.simple_instruction(start, op, Ghost(offset as int));
        }
        self.offset = offset + 1 + width;
        match op {
            OpCode::AddConstant | OpCode::DefineGlobal | OpCode::GetGlobal | OpCode::SetGlobal => {
                self.constant_instruction(start, op, offset)
            },
            OpCode::GetLocal | OpCode::SetLocal => self.byte_instruction(start, op, offset),
            OpCode::JumpIfFalse | OpCode::Jump | OpCode::Loop => self.jump_instruction(
                start,
                op,
                offset,
            ),
            _ => self.simple_instruction(start, op, Ghost(offset as int)),
        }
    }

    /// The line of an instruction without an operand, or of one that is cut
    /// off.
    fn simple_instruction(&self, start: String, op: OpCode, Ghost(offset): Ghost<int>) -> (line:
        Vec<Output>)
        requires
            0 <= offset < self.chunk@.code.len(),
            opcode_of(self.chunk@.code[offset]) == Some(op),
            cut_off(self.chunk@, offset) || operand_width(op) == 0,
            start@ == offset_column(offset) + line_column(self.chunk@.lines, offset),
        ensures
            views(line@) == instruction_listing(self.chunk@, self.heap@, offset),
    {
        let mut text = start;
        text.append(op.name());
        text.append("\n");
        let mut pieces = Vec::new();
        pieces.push(Output::Text(text));
        assert(views(pieces@) =~= instruction_listing(self.chunk@, self.heap@, offset));
        pieces
    }

    /// The name of `op` and `operand` in their columns, after `start`.
    fn columns(start: String, op: OpCode, operand: u128) -> (text: String)
        ensures
            text@ == start@ + operand_columns(opcode_name(op), operand as nat),
    {
        proof {
            reveal_strlit(" ");
        }
        let mut text = start;
        text.append(padded(op.name().to_owned(), 16, " ", true).as_str());
        text.append(" ");
        text.append(padded(decimal_text(operand), 4, " ", true).as_str());
        assert(text@ =~= start@ + operand_columns(opcode_name(op), operand as nat));
        text
    }

    /// The line of an instruction whose operand is the index of a constant.
    fn constant_instruction(&self, start: String, op: OpCode, offset: usize) -> (line: Vec<Output>)
        requires
            self.wf(),
            offset + 1 < self.chunk@.code.len(),
            opcode_of(self.chunk@.code[offset as int]) == Some(op),
            names_constant(op),
            start@ == offset_column(offset as int) + line_column(self.chunk@.lines, offset as int),
        ensures
            views(line@) == instruction_listing(self.chunk@, self.heap@, offset as int),
    {
        let length = self.chunk.len();
        let constant_idx = match self.chunk.byte_at(offset + 1) {
            Some(byte) => byte,
            None => 0,
        };
        let mut text = Self::columns(start, op, constant_idx as u128);
        text.append(" '");
        let piece = match self.chunk.constants().get(constant_idx as usize) {
            Some(value) => match render(self.heap, value) {
                Some(output) => output,
                None => Output::Text("?".to_owned()),
            },
            None => Output::Text("?".to_owned()),
        };
        let mut pieces = Vec::new();
        pieces.push(Output::Text(text));
        pieces.push(piece);
        pieces.push(Output::Text("'\n".to_owned()));
        assert(views(pieces@) =~= instruction_listing(self.chunk@, self.heap@, offset as int));
        pieces
    }

    /// The line of an instruction whose operand is the slot of a local.
    fn byte_instruction(&self, start: String, op: OpCode, offset: usize) -> (line: Vec<Output>)
        requires
            self.wf(),
            offset + 1 < self.chunk@.code.len(),
            opcode_of(self.chunk@.code[offset as int]) == Some(op),
            !names_constant(op),
            operand_width(op) == 1,
            start@ == offset_column(offset as int) + line_column(self.chunk@.lines, offset as int),
        ensures
            views(line@) == instruction_listing(self.chunk@, self.heap@, offset as int),
    {
        let length = self.chunk.len();
        let slot = match self.chunk.byte_at(offset + 1) {
            Some(byte) => byte,
            None => 0,
        };
        let mut text = Self::columns(start, op, slot as u128);
        text.append("\n");
        let mut pieces = Vec::new();
        pieces.push(Output::Text(text));
        assert(views(pieces@) =~= instruction_listing(self.chunk@, self.heap@, offset as int));
        pieces
    }

    /// The line of a jump.
    fn jump_instruction(&self, start: String, op: OpCode, offset: usize) -> (line: Vec<Output>)
        requires
            self.wf(),
            offset + 2 < self.chunk@.code.len(),
            opcode_of(self.chunk@.code[offset as int]) == Some(op),
            operand_width(op) == 2,
            start@ == offset_column(offset as int) + line_column(self.chunk@.lines, offset as int),
        ensures
            views(line@) == instruction_listing(self.chunk@, self.heap@, offset as int),
    {
        proof {
            reveal_strlit("-");
        }
        let length = self.chunk.len();
        let low = match self.chunk.byte_at(offset + 1) {
            Some(byte) => byte,
            None => 0,
        };
        let high = match self.chunk.byte_at(offset + 2) {
            Some(byte) => byte,
            None => 0,
        };
        let jump = offset_from_bytes(low, high);
        let mut text = Self::columns(start, op, offset as u128);
        text.append(" -> ");
        let ghost before = text@;
        let ghost target = jump_target(op, offset as int, jump);
        let from = offset as u128 + 3;
        if matches!(op, OpCode::Loop) {
            if jump as u128 <= from {
                text.append(decimal_text(from - jump as u128).as_str());
            } else {
                text.append("-");
                text.append(decimal_text(jump as u128 - from).as_str());
                assert(text@ =~= before + (seq!['-'] + decimal((-target) as nat)));
            }
        } else {
            text.append(decimal_text(from + jump as u128).as_str());
        }
        assert(text@ =~= before + decimal_int(target));
        text.append("\n");
        assert(text@ =~= start@ + operand_columns(opcode_name(op), offset as nat) + " -> "@
            + decimal_int(target) + "\n"@);
        let mut pieces = Vec::new();
        pieces.push(Output::Text(text));
        assert(views(pieces@) =~= instruction_listing(self.chunk@, self.heap@, offset as int));
        pieces
    }

    /// Moves the place at which the listing goes on to `offset`, which lies
    /// in the code.
    pub fn set_offset(&mut self, offset: usize)
        requires
            old(self).wf(),
            offset < old(self).chunk().code.len(),
        ensures
            final(self).wf(),
            final(self).chunk() == old(self).chunk(),
            final(self).heap() == old(self).heap(),
            final(self).name() == old(self).name(),
            final(self).output() == old(self).output(),
            final(self).offset() == offset,
    {
        self.offset = offset;
    }
}

/// One source has one listing: sources with the same text compile to the
/// same chunk, and the same chunk is listed the same.
pub proof fn lemma_same_source_same_listing(
    first: Seq<char>,
    second: Seq<char>,
    numbers: Seq<u64>,
    heap: Seq<Seq<char>>,
    name: Seq<char>,
)
    requires
        first =~= second,
    ensures
        crate::compiler::compile_spec(first, numbers, heap) == crate::compiler::compile_spec(
            second,
            numbers,
            heap,
        ),
        crate::compiler::compile_spec(first, numbers, heap) is Ok ==> chunk_listing(
            crate::compiler::compile_spec(first, numbers, heap)->Ok_0.0,
            crate::compiler::compile_spec(first, numbers, heap)->Ok_0.1,
            name,
        ) == chunk_listing(
            crate::compiler::compile_spec(second, numbers, heap)->Ok_0.0,
            crate::compiler::compile_spec(second, numbers, heap)->Ok_0.1,
            name,
        ),
{
}

/// From `offset` on, the listing of a chunk depends on the heap only by what
/// the constants of the chunk hold in it.
proof fn lemma_listing_from_by_constants(
    chunk: ChunkView,
    heap: Seq<Seq<char>>,
    other: Seq<Seq<char>>,
    offset: int,
)
    requires
        forall|k: int|
            0 <= k < chunk.constants.len() ==> rendered(heap, #[trigger] chunk.constants[k])
                == rendered(other, chunk.constants[k]),
    ensures
        listing_from(chunk, heap, offset) == listing_from(chunk, other, offset),
    decreases chunk.code.len() - offset,
{
    if 0 <= offset < chunk.code.len() && offset < next_offset(chunk, offset) {
        lemma_listing_from_by_constants(chunk, heap, other, next_offset(chunk, offset));
        match opcode_of(chunk.code[offset]) {
            Some(op) => {
                if !cut_off(chunk, offset) && names_constant(op) {
                    let index = chunk.code[offset + 1];
                    if index < chunk.constants.len() {
                        assert(rendered(heap, chunk.constants[index as int]) == rendered(
                            other,
                            chunk.constants[index as int],
                        ));
                    }
                }
            },
            None => {},
        }
        assert(instruction_listing(chunk, heap, offset) == instruction_listing(
            chunk,
            other,
            offset,
        ));
    }
}

/// The listing of a well-formed chunk stays the same when the heap grows:
/// it depends on the heap only by the texts of the strings that the
/// constants of the chunk name, and those stay.
pub proof fn lemma_listing_stays_as_heap_grows(
    chunk: ChunkView,
    heap: Seq<Seq<char>>,
    longer: Seq<Seq<char>>,
    name: Seq<char>,
)
    requires
        crate::bytecode::well_formed(chunk, heap.len()),
        crate::compiler::extends(heap, longer),
    ensures
        chunk_listing(chunk, heap, name) == chunk_listing(chunk, longer, name),
{
    assert forall|k: int| 0 <= k < chunk.constants.len() implies rendered(
        heap,
        #[trigger] chunk.constants[k],
    ) == rendered(longer, chunk.constants[k]) by {
        assert(crate::bytecode::value_known(chunk.constants[k], heap.len()));
    }
    lemma_listing_from_by_constants(chunk, heap, longer, 0);
}

} // verus!
