//! The virtual machine: it runs the code of a chunk on a stack of values.
//!
//! The machine works in steps. A step runs one instruction and says what
//! comes next: the program goes on, it has ended, a value is to be printed,
//! or the result of an arithmetic operation on two numbers is wanted. Whoever
//! drives the machine prints, and computes on numbers; the machine does the
//! rest. `step_spec` states each step exactly.

use crate::bytecode::{
    balanced, boundary, empty_at, instruction_typed, lemma_walk_join, lemma_walk_split, names_constant,
    needs, offset_from_bytes, offset_of, opcode_of, operand_width, typed, uses_local, walk,
    well_formed, Chunk, ChunkView, OpCode,
};
use crate::compiler::{
    compile_spec, compiled_heap, extends, statement_marks, Compiler, CompilerError, CompilerErrorView,
    CompilerOptions,
};
use crate::hashmap::HashMap;
use crate::heap::{interned, Heap};
use crate::object::Handle;
use crate::stack::Stack;
use crate::value::{
    bits_less, bits_negated, falsey, number_less, number_negated, render, rendered, values_equal,
    Output, OutputView, Value,
};
use vstd::prelude::*;
use vstd::string::*;

verus! {

#[derive(Debug, PartialEq, Eq)]
pub struct RuntimeError {
    msg: String,
    line: usize,
}

/// What a runtime error is, for contracts.
pub struct RuntimeErrorView {
    pub msg: Seq<char>,
    pub line: usize,
}

impl View for RuntimeError {
    type V = RuntimeErrorView;

    closed spec fn view(&self) -> RuntimeErrorView {
        RuntimeErrorView { msg: self.msg@, line: self.line }
    }
}

impl RuntimeError {
    pub fn msg(&self) -> (msg: &str)
        ensures
            msg@ == self@.msg,
    {
        self.msg.as_str()
    }

    pub fn line(&self) -> (line: usize)
        ensures
            line == self@.line,
    {
        self.line
    }
}

#[derive(Debug, PartialEq, Eq)]
pub enum VmError {
    Compile(CompilerError),
    Runtime(RuntimeError),
}

impl VmError {
    pub fn runtime(msg: &str, line: usize) -> (error: Self)
        ensures
            error is Runtime,
            error->Runtime_0@ == (RuntimeErrorView { msg: msg@, line }),
    {
        Self::Runtime(RuntimeError { msg: msg.to_owned(), line })
    }
}

impl From<CompilerError> for VmError {
    fn from(error: CompilerError) -> (wrapped: Self)
        ensures
            wrapped == VmError::Compile(error),
    {
        VmError::Compile(error)
    }
}

impl vstd::std_specs::convert::FromSpecImpl<CompilerError> for VmError {
    open spec fn obeys_from_spec() -> bool {
        true
    }

    open spec fn from_spec(error: CompilerError) -> VmError {
        VmError::Compile(error)
    }
}

impl From<RuntimeError> for VmError {
    fn from(error: RuntimeError) -> (wrapped: Self)
        ensures
            wrapped == VmError::Runtime(error),
    {
        VmError::Runtime(error)
    }
}

impl vstd::std_specs::convert::FromSpecImpl<RuntimeError> for VmError {
    open spec fn obeys_from_spec() -> bool {
        true
    }

    open spec fn from_spec(error: RuntimeError) -> VmError {
        VmError::Runtime(error)
    }
}

#[derive(Clone, Copy, Debug, Default)]
pub struct VmOptions {
    pub trace_execution: bool,
    pub compiler: CompilerOptions,
}

/// An operation on two numbers that the machine leaves to its driver.
#[derive(Clone, Copy, Debug, PartialEq, Eq, Structural)]
pub enum Arithmetic {
    Add,
    Substract,
    Multiply,
    Divide,
}

/// What a step of the machine leads to.
#[derive(Clone, Debug, PartialEq, Eq)]
pub enum Signal {
    /// The program goes on with the next step.
    Continue,
    /// The program has ended with this value.
    Done(Value),
    /// This is to be printed on a line of its own; then the program goes on.
    Print(Output),
    /// The program goes on once `supply` has given the machine the result of
    /// `op` on `left` and `right`.
    Compute { op: Arithmetic, left: u64, right: u64 },
}

pub enum SignalView {
    Continue,
    Done(Value),
    Print(OutputView),
    Compute { op: Arithmetic, left: u64, right: u64 },
}

impl View for Signal {
    type V = SignalView;

    open spec fn view(&self) -> SignalView {
        match self {
            Signal::Continue => SignalView::Continue,
            Signal::Done(value) => SignalView::Done(*value),
            Signal::Print(output) => SignalView::Print(output@),
            Signal::Compute { op, left, right } => SignalView::Compute {
                op: *op,
                left: *left,
                right: *right,
            },
        }
    }
}

/// The state of a machine, for contracts.
pub struct VmView {
    pub chunk: ChunkView,
    /// The place in the code of the next instruction.
    pub ip: int,
    /// The stack, from its bottom to its top.
    pub stack: Seq<Value>,
    /// The global variables, by the place in the heap of each one's name.
    pub globals: Map<usize, Value>,
    /// The value that was popped last.
    pub last: Value,
    /// The texts of the string objects, by their place in the heap.
    pub heap: Seq<Seq<char>>,
    /// The operation whose result the machine waits for.
    pub awaiting: Option<(Arithmetic, u64, u64)>,
}

/// How a step ends: with a signal, or with an error.
pub type Outcome = Result<SignalView, RuntimeErrorView>;

pub open spec fn msg_cannot_decode() -> Seq<char> {
    "cannot decode instruction."@
}

pub open spec fn msg_truncated() -> Seq<char> {
    "truncated instruction."@
}

pub open spec fn msg_unknown_constant() -> Seq<char> {
    "unknown constant."@
}

pub open spec fn msg_unknown_object() -> Seq<char> {
    "unknown object."@
}

pub open spec fn msg_unknown_local() -> Seq<char> {
    "unknown local."@
}

pub open spec fn msg_name_expected() -> Seq<char> {
    "constant is not a name."@
}

pub open spec fn msg_jump_out_of_range() -> Seq<char> {
    "jump out of range."@
}

pub open spec fn msg_empty_stack() -> Seq<char> {
    "empty stack."@
}

pub open spec fn msg_missing_operand() -> Seq<char> {
    "missing operand."@
}

pub open spec fn msg_no_value_at_0() -> Seq<char> {
    "no value at distance: 0 in the stack."@
}

pub open spec fn msg_no_value_at_1() -> Seq<char> {
    "no value at distance: 1 in the stack."@
}

pub open spec fn msg_operand_must_be_number() -> Seq<char> {
    "operand must be a number."@
}

pub open spec fn msg_operands_for_add() -> Seq<char> {
    "operands must be two numbers of two strings."@
}

/// `undefined variable 'NAME'.`
pub open spec fn msg_undefined_variable(name: Seq<char>) -> Seq<char> {
    "undefined variable '"@ + name + "'."@
}

/// The line that an error at `ip` is reported on: that of the byte of code
/// before `ip`, or 0 where there is none.
pub open spec fn line_before(chunk: ChunkView, ip: int) -> usize {
    if 0 < ip <= chunk.lines.len() {
        chunk.lines[ip - 1]
    } else {
        0
    }
}

/// The step fails with `msg`: the stack is emptied.
pub open spec fn failed(v: VmView, msg: Seq<char>) -> (VmView, Outcome) {
    (
        VmView { stack: Seq::empty(), ..v },
        Err(RuntimeErrorView { msg, line: line_before(v.chunk, v.ip) }),
    )
}

/// The step is done and the program goes on.
pub open spec fn goes_on(v: VmView) -> (VmView, Outcome) {
    (v, Ok(SignalView::Continue))
}

pub open spec fn pushed(v: VmView, value: Value) -> VmView {
    VmView { stack: v.stack.push(value), ..v }
}

/// The top of the stack is taken off and remembered as the value popped last.
pub open spec fn popped(v: VmView) -> VmView {
    VmView { stack: v.stack.drop_last(), last: v.stack.last(), ..v }
}

/// The value `distance` places below the top of the stack.
pub open spec fn peeked(v: VmView, distance: int) -> Value {
    v.stack[v.stack.len() - 1 - distance]
}

/// The handle of the name that the constant at `index` holds, where it
/// holds one whose object is in the heap.
pub open spec fn name_at(v: VmView, index: u8) -> Option<crate::object::Handle> {
    if index < v.chunk.constants.len() {
        match v.chunk.constants[index as int] {
            Value::String(handle) => if handle.index < v.heap.len() {
                Some(handle)
            } else {
                None
            },
            _ => None,
        }
    } else {
        None
    }
}

/// `Substract`, `Multiply`, `Divide`, `Greater`, `Less`: the state without
/// the two numbers on top of the stack, or the error.
pub open spec fn two_numbers(v: VmView) -> Result<(VmView, u64, u64), (VmView, Outcome)> {
    if v.stack.len() < 2 {
        Err(failed(v, msg_missing_operand()))
    } else {
        match (peeked(v, 1), peeked(v, 0)) {
            (Value::Number(left), Value::Number(right)) => Ok((popped(popped(v)), left, right)),
            _ => Err(failed(v, msg_operand_must_be_number())),
        }
    }
}

/// The machine waits for the result of `op` on the two numbers.
pub open spec fn computing(v: VmView, op: Arithmetic, left: u64, right: u64) -> (VmView, Outcome) {
    (
        VmView { awaiting: Some((op, left, right)), ..v },
        Ok(SignalView::Compute { op, left, right }),
    )
}

pub open spec fn arithmetic_step(v: VmView, op: Arithmetic) -> (VmView, Outcome) {
    match two_numbers(v) {
        Ok((v, left, right)) => computing(v, op, left, right),
        Err(failure) => failure,
    }
}

/// `Add`: two numbers are left to the driver, two strings are joined and
/// the result interned.
pub open spec fn add_step(v: VmView) -> (VmView, Outcome) {
    if v.stack.len() < 2 {
        failed(v, msg_no_value_at_1())
    } else {
        match (peeked(v, 1), peeked(v, 0)) {
            (Value::Number(left), Value::Number(right)) => computing(
                popped(popped(v)),
                Arithmetic::Add,
                left,
                right,
            ),
            (Value::String(left), Value::String(right)) => if left.index < v.heap.len()
                && right.index < v.heap.len() {
                let (heap, place) = interned(
                    v.heap,
                    v.heap[left.index as int] + v.heap[right.index as int],
                );
                let v = popped(popped(v));
                goes_on(
                    pushed(
                        VmView { heap, ..v },
                        Value::String(crate::object::Handle { index: place as usize }),
                    ),
                )
            } else {
                failed(v, msg_unknown_object())
            },
            _ => failed(v, msg_operands_for_add()),
        }
    }
}

/// A jump forward by `offset` from `v.ip`.
pub open spec fn jump_step(v: VmView, offset: u16) -> (VmView, Outcome) {
    if v.ip + offset <= v.chunk.code.len() {
        goes_on(VmView { ip: v.ip + offset, ..v })
    } else {
        failed(v, msg_jump_out_of_range())
    }
}

/// What the instruction `op` with the operand bytes `a` and `b` does in the
/// state `v`, whose `ip` is past the instruction already.
pub open spec fn execute_spec(v: VmView, op: OpCode, a: u8, b: u8) -> (VmView, Outcome) {
    match op {
        OpCode::Return => (v, Ok(SignalView::Done(v.last))),
        OpCode::AddConstant => if a < v.chunk.constants.len() {
            goes_on(pushed(v, v.chunk.constants[a as int]))
        } else {
            failed(v, msg_unknown_constant())
        },
        OpCode::AddNil => goes_on(pushed(v, Value::Nil)),
        OpCode::AddTrue => goes_on(pushed(v, Value::Boolean(true))),
        OpCode::AddFalse => goes_on(pushed(v, Value::Boolean(false))),
        OpCode::Not => if v.stack.len() < 1 {
            failed(v, msg_empty_stack())
        } else {
            goes_on(pushed(popped(v), Value::Boolean(falsey(peeked(v, 0)))))
        },
        OpCode::Negate => if v.stack.len() < 1 {
            failed(v, msg_missing_operand())
        } else {
            match peeked(v, 0) {
                Value::Number(bits) => goes_on(
                    pushed(popped(v), Value::Number(number_negated(bits))),
                ),
                _ => failed(v, msg_operand_must_be_number()),
            }
        },
        OpCode::Add => add_step(v),
        OpCode::Substract => arithmetic_step(v, Arithmetic::Substract),
        OpCode::Multiply => arithmetic_step(v, Arithmetic::Multiply),
        OpCode::Divide => arithmetic_step(v, Arithmetic::Divide),
        OpCode::Equal => if v.stack.len() < 2 {
            failed(v, msg_empty_stack())
        } else {
            goes_on(
                pushed(
                    popped(popped(v)),
                    Value::Boolean(values_equal(peeked(v, 1), peeked(v, 0))),
                ),
            )
        },
        OpCode::Greater => match two_numbers(v) {
            Ok((v, left, right)) => goes_on(pushed(v, Value::Boolean(number_less(right, left)))),
            Err(failure) => failure,
        },
        OpCode::Less => match two_numbers(v) {
            Ok((v, left, right)) => goes_on(pushed(v, Value::Boolean(number_less(left, right)))),
            Err(failure) => failure,
        },
        OpCode::Print => if v.stack.len() < 1 {
            failed(v, msg_empty_stack())
        } else {
            match rendered(v.heap, peeked(v, 0)) {
                Some(output) => (popped(v), Ok(SignalView::Print(output))),
                None => failed(v, msg_unknown_object()),
            }
        },
        OpCode::Pop => if v.stack.len() < 1 {
            failed(v, msg_empty_stack())
        } else {
            goes_on(popped(v))
        },
        OpCode::DefineGlobal => match name_at(v, a) {
            None => failed(v, msg_name_expected()),
            Some(name) => if v.stack.len() < 1 {
                failed(v, msg_no_value_at_0())
            } else {
                goes_on(
                    popped(VmView { globals: v.globals.insert(name.index, peeked(v, 0)), ..v }),
                )
            },
        },
        OpCode::GetGlobal => match name_at(v, a) {
            None => failed(v, msg_name_expected()),
            Some(name) => if v.globals.contains_key(name.index) {
                goes_on(pushed(v, v.globals[name.index]))
            } else {
                failed(v, msg_undefined_variable(v.heap[name.index as int]))
            },
        },
        OpCode::SetGlobal => match name_at(v, a) {
            None => failed(v, msg_name_expected()),
            Some(name) => if v.stack.len() < 1 {
                failed(v, msg_no_value_at_0())
            } else if v.globals.contains_key(name.index) {
                goes_on(VmView { globals: v.globals.insert(name.index, peeked(v, 0)), ..v })
            } else {
                failed(v, msg_undefined_variable(v.heap[name.index as int]))
            },
        },
        OpCode::GetLocal => if a < v.stack.len() {
            goes_on(pushed(v, v.stack[a as int]))
        } else {
            failed(v, msg_unknown_local())
        },
        OpCode::SetLocal => if v.stack.len() < 1 {
            failed(v, msg_no_value_at_0())
        } else if a < v.stack.len() {
            goes_on(VmView { stack: v.stack.update(a as int, peeked(v, 0)), ..v })
        } else {
            failed(v, msg_unknown_local())
        },
        OpCode::JumpIfFalse => if v.stack.len() < 1 {
            failed(v, msg_no_value_at_0())
        } else if falsey(peeked(v, 0)) {
            jump_step(v, offset_of(a, b))
        } else {
            goes_on(v)
        },
        OpCode::Jump => jump_step(v, offset_of(a, b)),
        OpCode::Loop => if offset_of(a, b) <= v.ip {
            goes_on(VmView { ip: v.ip - offset_of(a, b), ..v })
        } else {
            failed(v, msg_jump_out_of_range())
        },
    }
}

/// The operand byte `k` places after the operation's byte at `ip`, or 0
/// where the operation has no such operand.
pub open spec fn operand(chunk: ChunkView, ip: int, op: OpCode, k: int) -> u8 {
    if k <= operand_width(op) && ip + k < chunk.code.len() {
        chunk.code[ip + k]
    } else {
        0
    }
}

/// One step of the machine in the state `v`: the state after it, and how
/// the step ends.
///
/// While the machine waits for a number, a step changes nothing and asks for
/// the number again. Else the instruction at `ip` is fetched, `ip` moves
/// past it, and the instruction is executed.
pub open spec fn step_spec(v: VmView) -> (VmView, Outcome) {
    match v.awaiting {
        Some((op, left, right)) => (v, Ok(SignalView::Compute { op, left, right })),
        None => if !(0 <= v.ip < v.chunk.code.len()) {
            failed(v, msg_cannot_decode())
        } else {
            match opcode_of(v.chunk.code[v.ip]) {
                None => failed(VmView { ip: v.ip + 1, ..v }, msg_cannot_decode()),
                Some(op) => if v.ip + 1 + operand_width(op) > v.chunk.code.len() {
                    failed(VmView { ip: v.ip + 1, ..v }, msg_truncated())
                } else {
                    execute_spec(
                        VmView { ip: v.ip + 1 + operand_width(op), ..v },
                        op,
                        operand(v.chunk, v.ip, op, 1),
                        operand(v.chunk, v.ip, op, 2),
                    )
                },
            }
        },
    }
}

/// The machine after the result `bits` of the operation that it waits for is
/// supplied: the result is pushed. Where the machine waits for nothing, it is
/// unchanged.
pub open spec fn supply_spec(v: VmView, bits: u64) -> VmView {
    match v.awaiting {
        Some(_) => pushed(VmView { awaiting: None, ..v }, Value::Number(bits)),
        None => v,
    }
}

/// Up to `steps` steps of the machine from the state `v`: the steps end at
/// the first one that does not end with `Continue`.
pub open spec fn run_spec(v: VmView, steps: nat) -> (VmView, Outcome)
    decreases steps,
{
    if steps == 0 {
        goes_on(v)
    } else {
        let (next, outcome) = step_spec(v);
        if outcome == Ok::<SignalView, RuntimeErrorView>(SignalView::Continue) {
            run_spec(next, (steps - 1) as nat)
        } else {
            (next, outcome)
        }
    }
}

pub struct Vm {
    chunk: Chunk,
    ip: usize,
    options: VmOptions,
    stack: Stack<Value>,
    globals: HashMap<Handle, Value>,
    last: Value,
    heap: Heap,
    awaiting: Option<(Arithmetic, u64, u64)>,
}

impl View for Vm {
    type V = VmView;

    closed spec fn view(&self) -> VmView {
        VmView {
            chunk: self.chunk@,
            ip: self.ip as int,
            stack: self.stack@,
            globals: self.globals@,
            last: self.last,
            heap: self.heap@,
            awaiting: self.awaiting,
        }
    }
}

impl Vm {
    /// The machine's invariant: its parts are well formed, and `ip` does not
    /// lie past the end of the code.
    pub closed spec fn wf(&self) -> bool {
        &&& self.chunk.wf()
        &&& self.heap.wf()
        &&& self.globals.wf()
        &&& self.ip <= self.chunk@.code.len()
    }

    pub closed spec fn spec_options(&self) -> VmOptions {
        self.options
    }

    /// A machine with an empty chunk, an empty heap and no globals.
    pub fn new(options: Option<VmOptions>) -> (vm: Self)
        ensures
            vm.wf(),
            vm@ == (VmView {
                chunk: ChunkView {
                    code: Seq::empty(),
                    constants: Seq::empty(),
                    lines: Seq::empty(),
                },
                ip: 0,
                stack: Seq::empty(),
                globals: Map::empty(),
                last: Value::Nil,
                heap: Seq::empty(),
                awaiting: None,
            }),
            vm.spec_options() == match options {
                Some(options) => options,
                None => VmOptions {
                    trace_execution: false,
                    compiler: CompilerOptions { print_code: false },
                },
            },
    {
        let options = match options {
            Some(options) => options,
            None => VmOptions {
                trace_execution: false,
                compiler: CompilerOptions { print_code: false },
            },
        };
        Self {
            chunk: Chunk::new(),
            ip: 0,
            stack: Stack::new(),
            options,
            globals: HashMap::new(),
            last: Value::Nil,
            heap: Heap::new(),
            awaiting: None,
        }
    }

    pub fn options(&self) -> (options: &VmOptions)
        ensures
            *options == self.spec_options(),
    {
        &self.options
    }

    pub fn chunk(&self) -> (chunk: &Chunk)
        requires
            self.wf(),
        ensures
            chunk.wf(),
            chunk@ == self@.chunk,
    {
        &self.chunk
    }

    pub fn heap(&self) -> (heap: &Heap)
        requires
            self.wf(),
        ensures
            heap.wf(),
            heap@ == self@.heap,
    {
        &self.heap
    }

    /// Interns `chars` in the machine's heap.
    pub fn intern(&mut self, chars: &str) -> (handle: Handle)
        requires
            old(self).wf(),
        ensures
            final(self).wf(),
            final(self)@ == (VmView { heap: interned(old(self)@.heap, chars@).0, ..old(self)@ }),
            handle.index == interned(old(self)@.heap, chars@).1,
    {
        self.heap.intern(chars)
    }

    pub fn stack(&self) -> (stack: &Stack<Value>)
        ensures
            stack@ == self@.stack,
    {
        &self.stack
    }

    /// The place in the code of the next instruction.
    pub fn ip(&self) -> (ip: usize)
        ensures
            ip == self@.ip,
    {
        self.ip
    }

    /// Makes `chunk` the machine's program, to run from its start on an
    /// empty stack. Globals and heap stay.
    pub fn load_chunk(&mut self, chunk: Chunk)
        requires
            old(self).wf(),
            chunk.wf(),
        ensures
            final(self).wf(),
            final(self)@ == (VmView {
                chunk: chunk@,
                ip: 0,
                stack: Seq::empty(),
                last: Value::Nil,
                awaiting: None,
                ..old(self)@
            }),
            final(self).spec_options() == old(self).spec_options(),
    {
        self.chunk = chunk;
        self.ip = 0;
        self.stack.reset();
        self.last = Value::Nil;
        self.awaiting = None;
    }

    /// Compiles `source`, whose number literals have the values `numbers`,
    /// in order. The strings and names of the program are interned in the
    /// machine's heap, after an error too.
    pub fn compile(&mut self, source: &str, numbers: &Vec<u64>) -> (result: Result<Chunk, VmError>)
        requires
            old(self).wf(),
        ensures
            final(self).wf(),
            final(self).spec_options() == old(self).spec_options(),
            final(self)@ == (VmView {
                heap: compiled_heap(source@, numbers@, old(self)@.heap),
                ..old(self)@
            }),
            extends(old(self)@.heap, final(self)@.heap),
            match result {
                Ok(chunk) => chunk.wf() && well_formed(chunk@, final(self)@.heap.len())
                    && balanced(
                    chunk@.code,
                    statement_marks(source@, numbers@, old(self)@.heap),
                ) && compile_spec(source@, numbers@, old(self)@.heap) == Ok::<
                    (ChunkView, Seq<Seq<char>>),
                    CompilerErrorView,
                >((chunk@, final(self)@.heap)),
                Err(error) => error is Compile && compile_spec(
                    source@,
                    numbers@,
                    old(self)@.heap,
                ) == Err::<(ChunkView, Seq<Seq<char>>), CompilerErrorView>(error->Compile_0@),
            },
    {
        let compiler = Compiler::new(Some(&self.options.compiler));
        match compiler.compile(source, &mut self.heap, numbers) {
            Ok(chunk) => Ok(chunk),
            Err(error) => Err(VmError::Compile(error)),
        }
    }

    /// Compiles `source` and makes the chunk the machine's program, to run
    /// from its start on an empty stack. After an error the program is the
    /// one before.
    pub fn load(&mut self, source: &str, numbers: &Vec<u64>) -> (result: Result<(), VmError>)
        requires
            old(self).wf(),
        ensures
            final(self).wf(),
            final(self).spec_options() == old(self).spec_options(),
            extends(old(self)@.heap, final(self)@.heap),
            final(self)@.heap == compiled_heap(source@, numbers@, old(self)@.heap),
            match result {
                Ok(()) => compile_spec(source@, numbers@, old(self)@.heap) == Ok::<
                    (ChunkView, Seq<Seq<char>>),
                    CompilerErrorView,
                >((final(self)@.chunk, final(self)@.heap)) && final(self)@ == (VmView {
                    chunk: final(self)@.chunk,
                    heap: final(self)@.heap,
                    ip: 0,
                    stack: Seq::empty(),
                    last: Value::Nil,
                    awaiting: None,
                    ..old(self)@
                }) && at_instruction(final(self)@) && balanced(
                    final(self)@.chunk.code,
                    statement_marks(source@, numbers@, old(self)@.heap),
                ),
                Err(error) => error is Compile && compile_spec(
                    source@,
                    numbers@,
                    old(self)@.heap,
                ) == Err::<(ChunkView, Seq<Seq<char>>), CompilerErrorView>(error->Compile_0@)
                    && final(self)@ == (VmView { heap: final(self)@.heap, ..old(self)@ }),
            },
    {
        let chunk = self.compile(source, numbers)?;
        self.load_chunk(chunk);
        Ok(())
    }

    /// Compiles `source` and runs up to `steps` steps of the program: to its
    /// end, or to the first signal that asks for the driver, which then goes
    /// on with `run`.
    pub fn interpret(&mut self, source: &str, numbers: &Vec<u64>, steps: usize) -> (result: Result<
        Signal,
        VmError,
    >)
        requires
            old(self).wf(),
        ensures
            final(self).wf(),
            final(self).spec_options() == old(self).spec_options(),
            match compile_spec(source@, numbers@, old(self)@.heap) {
                Err(error) => result is Err && result->Err_0 is Compile
                    && result->Err_0->Compile_0@ == error && final(self)@ == (VmView {
                    heap: compiled_heap(source@, numbers@, old(self)@.heap),
                    ..old(self)@
                }) && extends(old(self)@.heap, final(self)@.heap),
                Ok((chunk, heap)) => {
                    let loaded = VmView {
                        chunk,
                        heap,
                        ip: 0,
                        stack: Seq::empty(),
                        last: Value::Nil,
                        awaiting: None,
                        ..old(self)@
                    };
                    &&& final(self)@ == run_spec(loaded, steps as nat).0
                    &&& match result {
                        Ok(signal) => run_spec(loaded, steps as nat).1 == Ok::<
                            SignalView,
                            RuntimeErrorView,
                        >(signal@),
                        Err(error) => error is Runtime && run_spec(loaded, steps as nat).1 == Err::<
                            SignalView,
                            RuntimeErrorView,
                        >(error->Runtime_0@),
                    }
                },
            },
    {
        self.load(source, numbers)?;
        match self.run(steps) {
            Ok(signal) => Ok(signal),
            Err(error) => Err(VmError::Runtime(error)),
        }
    }

    fn push(&mut self, value: Value)
        ensures
            final(self)@ == pushed(old(self)@, value),
            final(self).wf() == old(self).wf(),
            final(self).spec_options() == old(self).spec_options(),
    {
        self.stack.push(value)
    }

    fn pop(&mut self) -> (value: Value)
        requires
            old(self)@.stack.len() > 0,
        ensures
            final(self)@ == popped(old(self)@),
            value == old(self)@.stack.last(),
            final(self).wf() == old(self).wf(),
            final(self).spec_options() == old(self).spec_options(),
    {
        let value = match self.stack.pop() {
            Some(value) => value,
            None => Value::Nil,
        };
        self.last = value;
        value
    }

    fn peek(&self, distance: usize) -> (value: Option<Value>)
        ensures
            value == if distance < self@.stack.len() {
                Some(peeked(self@, distance as int))
            } else {
                None
            },
    {
        match self.stack.peek(distance) {
            Some(value) => Some(*value),
            None => None,
        }
    }

    fn reset_stack(&mut self)
        ensures
            final(self)@ == (VmView { stack: Seq::empty(), ..old(self)@ }),
            final(self).wf() == old(self).wf(),
            final(self).spec_options() == old(self).spec_options(),
    {
        self.stack.reset();
    }

    /// The line that an error is reported on now.
    fn current_line(&self) -> (line: usize)
        requires
            self.wf(),
        ensures
            line == line_before(self@.chunk, self@.ip),
    {
        proof {
            self.chunk.lemma_wf();
        }
        if self.ip > 0 {
            match self.chunk.line_at(self.ip - 1) {
                Some(line) => line,
                None => 0,
            }
        } else {
            0
        }
    }

    /// Empties the stack and makes the error with `message`.
    fn runtime_error(&mut self, message: &str) -> (error: RuntimeError)
        requires
            old(self).wf(),
        ensures
            final(self).wf(),
            final(self).spec_options() == old(self).spec_options(),
            (final(self)@, Err::<SignalView, RuntimeErrorView>(error@)) == failed(
                old(self)@,
                message@,
            ),
    {
        let line = self.current_line();
        self.reset_stack();
        RuntimeError { msg: message.to_owned(), line }
    }

    /// `undefined variable 'NAME'.` for the name that `handle` names.
    fn undefined_variable(&mut self, handle: Handle) -> (error: RuntimeError)
        requires
            old(self).wf(),
            handle.index < old(self)@.heap.len(),
        ensures
            final(self).wf(),
            final(self).spec_options() == old(self).spec_options(),
            (final(self)@, Err::<SignalView, RuntimeErrorView>(error@)) == failed(
                old(self)@,
                msg_undefined_variable(old(self)@.heap[handle.index as int]),
            ),
    {
        let mut msg = "undefined variable '".to_owned();
        match self.heap.get(handle) {
            Some(name) => msg.append(name.as_str()),
            None => {},
        }
        msg.append("'.");
        let line = self.current_line();
        self.reset_stack();
        RuntimeError { msg, line }
    }

    /// The name that the constant at `index` holds.
    fn read_name(&self, index: u8) -> (name: Option<Handle>)
        requires
            self.wf(),
        ensures
            name == name_at(self@, index),
    {
        match self.chunk.constants().get(index as usize) {
            Some(Value::String(handle)) => {
                if self.heap.get(handle).is_some() {
                    Some(handle)
                } else {
                    None
                }
            },
            _ => None,
        }
    }

    /// Takes two numbers off the stack, or fails as `two_numbers` says.
    fn check_both_number(&mut self) -> (result: Result<(u64, u64), RuntimeError>)
        requires
            old(self).wf(),
        ensures
            final(self).wf(),
            final(self).spec_options() == old(self).spec_options(),
            match result {
                Ok((left, right)) => two_numbers(old(self)@) == Ok::<
                    (VmView, u64, u64),
                    (VmView, Outcome),
                >((final(self)@, left, right)),
                Err(error) => two_numbers(old(self)@) == Err::<
                    (VmView, u64, u64),
                    (VmView, Outcome),
                >((final(self)@, Err(error@))),
            },
    {
        match (self.peek(1), self.peek(0)) {
            (Some(left), Some(right)) => {
                match (left, right) {
                    (Value::Number(left), Value::Number(right)) => {
                        self.pop();
                        self.pop();
                        Ok((left, right))
                    },
                    _ => Err(self.runtime_error("operand must be a number.")),
                }
            },
            _ => Err(self.runtime_error("missing operand.")),
        }
    }

    /// Leaves `op` on two numbers to the driver.
    fn compute(&mut self, op: Arithmetic) -> (result: Result<Signal, RuntimeError>)
        requires
            old(self).wf(),
            old(self)@.awaiting is None,
        ensures
            final(self).wf(),
            final(self).spec_options() == old(self).spec_options(),
            (final(self)@, outcome_of(result)) == arithmetic_step(old(self)@, op),
    {
        match self.check_both_number() {
            Ok((left, right)) => {
                self.awaiting = Some((op, left, right));
                Ok(Signal::Compute { op, left, right })
            },
            Err(error) => Err(error),
        }
    }

    fn op_add(&mut self) -> (result: Result<Signal, RuntimeError>)
        requires
            old(self).wf(),
            old(self)@.awaiting is None,
        ensures
            final(self).wf(),
            final(self).spec_options() == old(self).spec_options(),
            (final(self)@, outcome_of(result)) == add_step(old(self)@),
    {
        let (left, right) = match (self.peek(1), self.peek(0)) {
            (Some(left), Some(right)) => (left, right),
            _ => {
                return Err(self.runtime_error("no value at distance: 1 in the stack."));
            },
        };
        match (left, right) {
            (Value::Number(left), Value::Number(right)) => {
                self.pop();
                self.pop();
                self.awaiting = Some((Arithmetic::Add, left, right));
                Ok(Signal::Compute { op: Arithmetic::Add, left, right })
            },
            (Value::String(left), Value::String(right)) => {
                let joined = match (self.heap.get(left), self.heap.get(right)) {
                    (Some(left), Some(right)) => left.concat(right),
                    _ => {
                        return Err(self.runtime_error("unknown object."));
                    },
                };
                self.pop();
                self.pop();
                let handle = self.heap.allocate_string(joined);
                self.push(Value::String(handle));
                Ok(Signal::Continue)
            },
            _ => Err(self.runtime_error("operands must be two numbers of two strings.")),
        }
    }

    fn jump(&mut self, offset: u16) -> (result: Result<Signal, RuntimeError>)
        requires
            old(self).wf(),
        ensures
            final(self).wf(),
            final(self).spec_options() == old(self).spec_options(),
            (final(self)@, outcome_of(result)) == jump_step(old(self)@, offset),
    {
        let length = self.chunk.len();
        if offset as usize <= length - self.ip {
            self.ip = self.ip + offset as usize;
            Ok(Signal::Continue)
        } else {
            Err(self.runtime_error("jump out of range."))
        }
    }

    /// What is printed for `value`.
    pub fn render(&self, value: Value) -> (output: Option<Output>)
        requires
            self.wf(),
        ensures
            match output {
                Some(output) => rendered(self@.heap, value) == Some(output@),
                None => rendered(self@.heap, value) is None,
            },
    {
        render(&self.heap, value)
    }

    /// Executes `op` with the operand bytes `a` and `b`; `ip` is past the
    /// instruction already.
    fn execute(&mut self, op: OpCode, a: u8, b: u8) -> (result: Result<Signal, RuntimeError>)
        requires
            old(self).wf(),
            old(self)@.awaiting is None,
        ensures
            final(self).wf(),
            final(self).spec_options() == old(self).spec_options(),
            (final(self)@, outcome_of(result)) == execute_spec(old(self)@, op, a, b),
    {
        match op {
            OpCode::Return => Ok(Signal::Done(self.last)),
            OpCode::AddConstant => {
                match self.chunk.constants().get(a as usize) {
                    Some(constant) => {
                        self.push(constant);
                        Ok(Signal::Continue)
                    },
                    None => Err(self.runtime_error("unknown constant.")),
                }
            },
            OpCode::AddNil => {
                self.push(Value::Nil);
                Ok(Signal::Continue)
            },
            OpCode::AddTrue => {
                self.push(Value::true_value());
                Ok(Signal::Continue)
            },
            OpCode::AddFalse => {
                self.push(Value::false_value());
                Ok(Signal::Continue)
            },
            OpCode::Not => {
                if self.stack.is_empty() {
                    return Err(self.runtime_error("empty stack."));
                }
                let value = self.pop();
                self.push(Value::Boolean(value.is_falsey()));
                Ok(Signal::Continue)
            },
            OpCode::Negate => {
                match self.peek(0) {
                    None => Err(self.runtime_error("missing operand.")),
                    Some(Value::Number(bits)) => {
                        self.pop();
                        self.push(Value::Number(bits_negated(bits)));
                        Ok(Signal::Continue)
                    },
                    Some(_) => Err(self.runtime_error("operand must be a number.")),
                }
            },
            OpCode::Add => self.op_add(),
            OpCode::Substract => self.compute(Arithmetic::Substract),
            OpCode::Multiply => self.compute(Arithmetic::Multiply),
            OpCode::Divide => self.compute(Arithmetic::Divide),
            OpCode::Equal => {
                if self.stack.len() < 2 {
                    return Err(self.runtime_error("empty stack."));
                }
                let right = self.pop();
                let left = self.pop();
                self.push(Value::Boolean(left.equals(&right)));
                Ok(Signal::Continue)
            },
            OpCode::Greater => {
                match self.check_both_number() {
                    Ok((left, right)) => {
                        self.push(Value::Boolean(bits_less(right, left)));
                        Ok(Signal::Continue)
                    },
                    Err(error) => Err(error),
                }
            },
            OpCode::Less => {
                match self.check_both_number() {
                    Ok((left, right)) => {
                        self.push(Value::Boolean(bits_less(left, right)));
                        Ok(Signal::Continue)
                    },
                    Err(error) => Err(error),
                }
            },
            OpCode::Print => {
                let value = match self.peek(0) {
                    Some(value) => value,
                    None => {
                        return Err(self.runtime_error("empty stack."));
                    },
                };
                match self.render(value) {
                    Some(output) => {
                        self.pop();
                        Ok(Signal::Print(output))
                    },
                    None => Err(self.runtime_error("unknown object.")),
                }
            },
            OpCode::Pop => {
                if self.stack.is_empty() {
                    return Err(self.runtime_error("empty stack."));
                }
                self.pop();
                Ok(Signal::Continue)
            },
            OpCode::DefineGlobal => {
                let name = match self.read_name(a) {
                    Some(name) => name,
                    None => {
                        return Err(self.runtime_error("constant is not a name."));
                    },
                };
                let value = match self.peek(0) {
                    Some(value) => value,
                    None => {
                        return Err(self.runtime_error("no value at distance: 0 in the stack."));
                    },
                };
                self.globals.insert(name, value);
                self.pop();
                Ok(Signal::Continue)
            },
            OpCode::GetGlobal => {
                let name = match self.read_name(a) {
                    Some(name) => name,
                    None => {
                        return Err(self.runtime_error("constant is not a name."));
                    },
                };
                let found = match self.globals.get(&name) {
                    Some(value) => Some(*value),
                    None => None,
                };
                match found {
                    Some(value) => {
                        self.push(value);
                        Ok(Signal::Continue)
                    },
                    None => Err(self.undefined_variable(name)),
                }
            },
            OpCode::SetGlobal => {
                let name = match self.read_name(a) {
                    Some(name) => name,
                    None => {
                        return Err(self.runtime_error("constant is not a name."));
                    },
                };
                let value = match self.peek(0) {
                    Some(value) => value,
                    None => {
                        return Err(self.runtime_error("no value at distance: 0 in the stack."));
                    },
                };
                if self.globals.contains_key(&name) {
                    self.globals.insert(name, value);
                    Ok(Signal::Continue)
                } else {
                    Err(self.undefined_variable(name))
                }
            },
            OpCode::GetLocal => {
                let found = match self.stack.get(a as usize) {
                    Some(value) => Some(*value),
                    None => None,
                };
                match found {
                    Some(value) => {
                        self.push(value);
                        Ok(Signal::Continue)
                    },
                    None => Err(self.runtime_error("unknown local.")),
                }
            },
            OpCode::SetLocal => {
                let value = match self.peek(0) {
                    Some(value) => value,
                    None => {
                        return Err(self.runtime_error("no value at distance: 0 in the stack."));
                    },
                };
                if (a as usize) < self.stack.len() {
                    self.stack.set(a as usize, value);
                    Ok(Signal::Continue)
                } else {
                    Err(self.runtime_error("unknown local."))
                }
            },
            OpCode::JumpIfFalse => {
                let value = match self.peek(0) {
                    Some(value) => value,
                    None => {
                        return Err(self.runtime_error("no value at distance: 0 in the stack."));
                    },
                };
                if value.is_falsey() {
                    self.jump(offset_from_bytes(a, b))
                } else {
                    Ok(Signal::Continue)
                }
            },
            OpCode::Jump => self.jump(offset_from_bytes(a, b)),
            OpCode::Loop => {
                let offset = offset_from_bytes(a, b) as usize;
                if offset <= self.ip {
                    self.ip = self.ip - offset;
                    Ok(Signal::Continue)
                } else {
                    Err(self.runtime_error("jump out of range."))
                }
            },
        }
    }

    /// Runs one step: see `step_spec`.
    pub fn step(&mut self) -> (result: Result<Signal, RuntimeError>)
        requires
            old(self).wf(),
        ensures
            final(self).wf(),
            final(self).spec_options() == old(self).spec_options(),
            (final(self)@, outcome_of(result)) == step_spec(old(self)@),
    {
        if let Some((op, left, right)) = self.awaiting {
            return Ok(Signal::Compute { op, left, right });
        }
        let ip = self.ip;
        let length = self.chunk.len();
        let byte = match self.chunk.byte_at(ip) {
            Some(byte) => byte,
            None => {
                return Err(self.runtime_error("cannot decode instruction."));
            },
        };
        self.ip = ip + 1;
        let op = match OpCode::from_repr(byte) {
            Some(op) => op,
            None => {
                return Err(self.runtime_error("cannot decode instruction."));
            },
        };
        let width = op.operands();
        if width > length - self.ip {
            return Err(self.runtime_error("truncated instruction."));
        }
        let a = if width >= 1 {
            match self.chunk.byte_at(ip + 1) {
                Some(byte) => byte,
                None => 0,
            }
        } else {
            0
        };
        let b = if width >= 2 {
            match self.chunk.byte_at(ip + 2) {
                Some(byte) => byte,
                None => 0,
            }
        } else {
            0
        };
        self.ip = ip + 1 + width;
        self.execute(op, a, b)
    }

    /// Gives the machine the result `bits` of the operation that it waits
    /// for. Says whether the machine waited for one.
    pub fn supply(&mut self, bits: u64) -> (accepted: bool)
        requires
            old(self).wf(),
        ensures
            final(self).wf(),
            final(self).spec_options() == old(self).spec_options(),
            accepted == old(self)@.awaiting is Some,
            final(self)@ == supply_spec(old(self)@, bits),
    {
        if self.awaiting.is_some() {
            self.awaiting = None;
            self.push(Value::Number(bits));
            true
        } else {
            false
        }
    }

    /// Runs up to `steps` steps: see `run_spec`. `Continue` says that the
    /// steps are used up and the program has not ended.
    pub fn run(&mut self, steps: usize) -> (result: Result<Signal, RuntimeError>)
        requires
            old(self).wf(),
        ensures
            final(self).wf(),
            final(self).spec_options() == old(self).spec_options(),
            (final(self)@, outcome_of(result)) == run_spec(old(self)@, steps as nat),
    {
        let mut left = steps;
        while left > 0
            invariant
                self.wf(),
                self.spec_options() == old(self).spec_options(),
                run_spec(self@, left as nat) == run_spec(old(self)@, steps as nat),
            decreases left,
        {
            match self.step() {
                Ok(Signal::Continue) => {},
                Ok(signal) => {
                    return Ok(signal);
                },
                Err(error) => {
                    return Err(error);
                },
            }
            left -= 1;
        }
        Ok(Signal::Continue)
    }
}

/// How a step's result reads in contracts.
pub open spec fn outcome_of(result: Result<Signal, RuntimeError>) -> Outcome {
    match result {
        Ok(signal) => Ok(signal@),
        Err(error) => Err(error@),
    }
}

/// Whether the machine is at an instruction of a well-formed chunk whose
/// strings are in its heap.
pub open spec fn at_instruction(v: VmView) -> bool {
    &&& well_formed(v.chunk, v.heap.len())
    &&& 0 <= v.ip <= v.chunk.code.len()
    &&& boundary(v.chunk.code, v.ip)
}

/// In a well-formed chunk a step finds an instruction with its operands, a
/// constant where it names one, a name where it names a global, and a place
/// in the code where it jumps; and the machine is at an instruction again.
/// What can go wrong is what the program does wrong: an operand of the wrong
/// kind, a variable that is not defined, a value that is not on the stack.
pub proof fn lemma_step_stays(v: VmView)
    requires
        at_instruction(v),
        v.ip < v.chunk.code.len(),
        v.awaiting is None,
    ensures
        ({
            let op = opcode_of(v.chunk.code[v.ip]);
            let fetched = VmView { ip: v.ip + 1 + operand_width(op->0), ..v };
            let a = operand(v.chunk, v.ip, op->0, 1);
            &&& op is Some
            &&& v.ip + 1 + operand_width(op->0) <= v.chunk.code.len()
            &&& step_spec(v) == execute_spec(fetched, op->0, a, operand(v.chunk, v.ip, op->0, 2))
            &&& names_constant(op->0) ==> a < v.chunk.constants.len()
            &&& names_constant(op->0) && op->0 != OpCode::AddConstant ==> name_at(fetched, a) is Some
            &&& op->0 == OpCode::Jump ==> step_spec(v).1 is Ok
            &&& op->0 == OpCode::Loop ==> step_spec(v).1 is Ok
            &&& at_instruction(step_spec(v).0)
        }),
{
    let code = v.chunk.code;
    let end = code.len() as int;
    lemma_walk_split(code, 0, v.ip, end);
    let op = opcode_of(code[v.ip])->0;
    let next = v.ip + 1 + operand_width(op);
    assert(walk(code, v.ip, next)) by {
        assert(walk(code, next, next));
    }
    lemma_walk_join(code, 0, v.ip, next);
    let fetched = VmView { ip: next, ..v };
    let a = operand(v.chunk, v.ip, op, 1);
    let b = operand(v.chunk, v.ip, op, 2);
    let after = step_spec(v).0;
    assert(after.chunk == v.chunk);
    assert(v.heap.len() <= after.heap.len()) by {
        crate::heap::lemma_intern_keeps(v.heap, Seq::empty());
        if op == OpCode::Add && v.stack.len() >= 2 {
            match (peeked(fetched, 1), peeked(fetched, 0)) {
                (Value::String(left), Value::String(right)) => {
                    if left.index < v.heap.len() && right.index < v.heap.len() {
                        crate::heap::lemma_intern_keeps(
                            v.heap,
                            v.heap[left.index as int] + v.heap[right.index as int],
                        );
                    }
                },
                _ => {},
            }
        }
    }
    if names_constant(op) && op != OpCode::AddConstant {
        assert(v.chunk.constants[a as int] is String);
        assert(crate::bytecode::value_known(v.chunk.constants[a as int], v.heap.len()));
    }
    assert(boundary(code, after.ip) && 0 <= after.ip <= end);
}

/// A run that starts at an instruction of a well-formed chunk stays at the
/// instructions of the chunk, however long it goes on.
pub proof fn lemma_run_stays(v: VmView, steps: nat)
    requires
        at_instruction(v),
        v.awaiting is None,
    ensures
        at_instruction(run_spec(v, steps).0),
    decreases steps,
{
    if steps > 0 {
        let (next, outcome) = step_spec(v);
        if v.ip < v.chunk.code.len() {
            lemma_step_stays(v);
        }
        if outcome == Ok::<SignalView, RuntimeErrorView>(SignalView::Continue) {
            assert(next.awaiting is None) by {
                lemma_goes_on_awaits_nothing(v);
            }
            lemma_run_stays(next, (steps - 1) as nat);
        }
    }
}

/// A step that ends with `Continue` leaves the machine waiting for nothing.
pub proof fn lemma_goes_on_awaits_nothing(v: VmView)
    requires
        v.awaiting is None,
        step_spec(v).1 == Ok::<SignalView, RuntimeErrorView>(SignalView::Continue),
    ensures
        step_spec(v).0.awaiting is None,
{
}

/// The machine stays at an instruction when the number that it waits for is
/// supplied.
pub proof fn lemma_supply_stays(v: VmView, bits: u64)
    requires
        at_instruction(v),
    ensures
        at_instruction(supply_spec(v, bits)),
        supply_spec(v, bits).awaiting is None,
{
}

/// Whether the stack of the machine is as deep as `depths` says of the
/// instruction that the machine is at; a number that the machine waits for
/// counts as on the stack.
pub open spec fn as_deep(v: VmView, depths: Map<int, int>) -> bool {
    &&& depths.contains_key(v.ip)
    &&& depths[v.ip] == v.stack.len() + if v.awaiting is Some {
        1int
    } else {
        0int
    }
}

/// In a chunk whose instructions fit the depths `depths`, a step from a
/// stack that is as deep as they say finds on it the values that its
/// instruction needs and the local that it names, and leaves the stack as
/// deep as the depths say of the instruction that is next. The program
/// returns on an empty stack.
pub proof fn lemma_step_keeps_depth(v: VmView, depths: Map<int, int>)
    requires
        at_instruction(v),
        v.ip < v.chunk.code.len(),
        v.awaiting is None,
        typed(v.chunk.code, depths, Map::empty()),
        as_deep(v, depths),
    ensures
        ({
            let op = opcode_of(v.chunk.code[v.ip])->0;
            let (next, outcome) = step_spec(v);
            &&& v.stack.len() >= needs(op)
            &&& uses_local(op) ==> operand(v.chunk, v.ip, op, 1) < v.stack.len()
            &&& op == OpCode::Return ==> v.stack.len() == 0
            &&& outcome is Ok && op != OpCode::Return ==> as_deep(next, depths)
        }),
{
    lemma_step_stays(v);
    assert(instruction_typed(v.chunk.code, depths, Map::empty(), v.ip));
}

/// A run from a stack that is as deep as the depths of the chunk say stays
/// so, however long it goes on; and where the program ends, the stack is
/// empty.
pub proof fn lemma_run_keeps_depth(v: VmView, depths: Map<int, int>, steps: nat)
    requires
        at_instruction(v),
        v.awaiting is None,
        typed(v.chunk.code, depths, Map::empty()),
        as_deep(v, depths),
    ensures
        ({
            let (last, outcome) = run_spec(v, steps);
            match outcome {
                Ok(SignalView::Done(_)) => last.stack.len() == 0,
                Ok(_) => as_deep(last, depths),
                Err(_) => true,
            }
        }),
    decreases steps,
{
    if steps > 0 {
        let (next, outcome) = step_spec(v);
        if v.ip < v.chunk.code.len() {
            lemma_step_stays(v);
            lemma_step_keeps_depth(v, depths);
        }
        if outcome == Ok::<SignalView, RuntimeErrorView>(SignalView::Continue) {
            assert(next.awaiting is None) by {
                lemma_goes_on_awaits_nothing(v);
            }
            lemma_run_keeps_depth(next, depths, (steps - 1) as nat);
        }
    }
}

/// The stack stays as deep as the depths say when the number that the
/// machine waits for is supplied.
pub proof fn lemma_supply_keeps_depth(v: VmView, depths: Map<int, int>, bits: u64)
    requires
        as_deep(v, depths),
    ensures
        as_deep(supply_spec(v, bits), depths),
{
}

/// A program that is balanced with an empty stack at the places `marks`
/// and runs from its start on an empty stack: whenever it comes to one of
/// the places, and waits for no number, the stack is empty; and it ends on
/// an empty stack, if it ends.
pub proof fn lemma_stack_empty_at_marks(v: VmView, marks: Set<int>, steps: nat)
    requires
        at_instruction(v),
        balanced(v.chunk.code, marks),
        v.ip == 0,
        v.stack.len() == 0,
        v.awaiting is None,
    ensures
        ({
            let (last, outcome) = run_spec(v, steps);
            &&& outcome is Ok && outcome->Ok_0 is Done ==> last.stack.len() == 0
            &&& outcome is Ok && marks.contains(last.ip) && last.awaiting is None
                ==> last.stack.len() == 0
        }),
{
    let depths = choose|depths: Map<int, int>| #[trigger]
        typed(v.chunk.code, depths, Map::empty()) && empty_at(depths, marks);
    lemma_run_keeps_depth(v, depths, steps);
}

} // verus!
