//! The compiler: a single pass over the tokens that emits bytecode.
//!
//! Each function of the compiler has a specification function of the same
//! name with `_spec` at its end, which states what the function does to the
//! state of the compilation, or which error it gives and in which state it
//! leaves the compilation then.

use crate::array::Array;
use crate::bytecode::{
    balanced, boundary, depths_after, effect, empty_at, falls, instruction_flows, jump_at,
    jumps_after, kept_except,
    landed, lemma_boundary_kept, lemma_formed_extends, lemma_formed_patched, lemma_jump_at_kept,
    lemma_jump_at_patched, lemma_typed_extends, lemma_typed_patched, lemma_whole_extends,
    lemma_whole_patched, named, needs, offset_bytes, offset_of, opcode_byte, opcode_of,
    operand_fits, operand_width, prefix_kept, typed, uses_local, value_known, well_formed, whole,
    Chunk, ChunkView, OpCode, MAX_CONSTANTS,
};
use crate::heap::{interned, Heap};
use crate::object::Handle;
use crate::scanner::{
    dummy_token, scan_spec, Scanner, ScannerError, ScannerErrorView, Token, TokenKind, TokenView,
};
use crate::value::Value;
use vstd::prelude::*;
use vstd::string::*;

verus! {

#[derive(Debug, PartialEq, Eq)]
pub struct CompilerError {
    msg: String,
    line: usize,
}

/// What a compiler error is, for contracts.
pub struct CompilerErrorView {
    pub msg: Seq<char>,
    pub line: usize,
}

impl View for CompilerError {
    type V = CompilerErrorView;

    closed spec fn view(&self) -> CompilerErrorView {
        CompilerErrorView { msg: self.msg@, line: self.line }
    }
}

impl CompilerError {
    pub fn new(msg: &str, line: usize) -> (error: Self)
        ensures
            error@ == (CompilerErrorView { msg: msg@, line }),
    {
        Self { msg: msg.to_owned(), line }
    }

    pub fn msg(&self) -> (msg: &String)
        ensures
            msg@ == self@.msg,
    {
        &self.msg
    }

    pub fn line(&self) -> (line: usize)
        ensures
            line == self@.line,
    {
        self.line
    }

    /// The compiler error with the message and the line of `scanner_error`.
    pub fn from_scanner_error(scanner_error: ScannerError) -> (error: Self)
        ensures
            error@ == lifted(scanner_error@),
    {
        Self { msg: scanner_error.msg().to_owned(), line: scanner_error.line() }
    }
}

impl From<ScannerError> for CompilerError {
    fn from(scanner_error: ScannerError) -> (error: Self)
        ensures
            error@ == lifted(scanner_error@),
    {
        let (msg, line) = scanner_error.into_parts();
        Self { msg, line }
    }
}

impl vstd::std_specs::convert::FromSpecImpl<ScannerError> for CompilerError {
    open spec fn obeys_from_spec() -> bool {
        true
    }

    closed spec fn from_spec(scanner_error: ScannerError) -> CompilerError {
        CompilerError { msg: scanner_error.spec_msg(), line: scanner_error@.line }
    }
}

/// A scanner's error as the compiler reports it.
pub open spec fn lifted(error: ScannerErrorView) -> CompilerErrorView {
    CompilerErrorView { msg: error.msg, line: error.line }
}

#[derive(Copy, Clone, Debug, Default)]
pub struct CompilerOptions {
    pub print_code: bool,
}

/// From lowest to highest precedence.
#[derive(Copy, Clone, Debug, PartialEq, Eq, Structural)]
pub enum Precedence {
    /// The precedence of what is no operator.
    Lowest,
    Assignment,
    Or,
    And,
    Equality,
    Comparison,
    Term,
    Factor,
    Unary,
    Call,
    Primary,
}

impl Default for Precedence {
    fn default() -> (precedence: Self)
        ensures
            precedence == Precedence::Lowest,
    {
        Precedence::Lowest
    }
}

/// The place of `precedence` in the order, from 0 for `Lowest` to 10 for
/// `Primary`.
pub open spec fn level_of(precedence: Precedence) -> u8 {
    match precedence {
        Precedence::Lowest => 0,
        Precedence::Assignment => 1,
        Precedence::Or => 2,
        Precedence::And => 3,
        Precedence::Equality => 4,
        Precedence::Comparison => 5,
        Precedence::Term => 6,
        Precedence::Factor => 7,
        Precedence::Unary => 8,
        Precedence::Call => 9,
        Precedence::Primary => 10,
    }
}

/// The precedence at place `level`, if there is one.
pub open spec fn precedence_at(level: u8) -> Option<Precedence> {
    if level == 0 {
        Some(Precedence::Lowest)
    } else if level == 1 {
        Some(Precedence::Assignment)
    } else if level == 2 {
        Some(Precedence::Or)
    } else if level == 3 {
        Some(Precedence::And)
    } else if level == 4 {
        Some(Precedence::Equality)
    } else if level == 5 {
        Some(Precedence::Comparison)
    } else if level == 6 {
        Some(Precedence::Term)
    } else if level == 7 {
        Some(Precedence::Factor)
    } else if level == 8 {
        Some(Precedence::Unary)
    } else if level == 9 {
        Some(Precedence::Call)
    } else if level == 10 {
        Some(Precedence::Primary)
    } else {
        None
    }
}

/// The next higher precedence; `Primary` is the highest.
pub open spec fn higher_of(precedence: Precedence) -> Precedence {
    match precedence {
        Precedence::Primary => Precedence::Primary,
        _ => precedence_at((level_of(precedence) + 1) as u8)->0,
    }
}

/// The next lower precedence; `Lowest` has none below it.
pub open spec fn lower_of(precedence: Precedence) -> Precedence {
    match precedence {
        Precedence::Lowest => Precedence::Lowest,
        _ => precedence_at((level_of(precedence) - 1) as u8)->0,
    }
}

impl Precedence {
    pub fn level(self) -> (level: u8)
        ensures
            level == level_of(self),
            precedence_at(level) == Some(self),
    {
        match self {
            Precedence::Lowest => 0,
            Precedence::Assignment => 1,
            Precedence::Or => 2,
            Precedence::And => 3,
            Precedence::Equality => 4,
            Precedence::Comparison => 5,
            Precedence::Term => 6,
            Precedence::Factor => 7,
            Precedence::Unary => 8,
            Precedence::Call => 9,
            Precedence::Primary => 10,
        }
    }

    pub fn from_repr(level: u8) -> (precedence: Option<Precedence>)
        ensures
            precedence == precedence_at(level),
            precedence is Some ==> level_of(precedence->0) == level,
    {
        match level {
            0 => Some(Precedence::Lowest),
            1 => Some(Precedence::Assignment),
            2 => Some(Precedence::Or),
            3 => Some(Precedence::And),
            4 => Some(Precedence::Equality),
            5 => Some(Precedence::Comparison),
            6 => Some(Precedence::Term),
            7 => Some(Precedence::Factor),
            8 => Some(Precedence::Unary),
            9 => Some(Precedence::Call),
            10 => Some(Precedence::Primary),
            _ => None,
        }
    }

    pub fn higher(self) -> (precedence: Precedence)
        ensures
            precedence == higher_of(self),
            level_of(precedence) == if self == Precedence::Primary {
                10
            } else {
                level_of(self) + 1
            },
    {
        match self {
            Precedence::Primary => Precedence::Primary,
            _ => match Precedence::from_repr(self.level() + 1) {
                Some(precedence) => precedence,
                None => Precedence::Primary,
            },
        }
    }

    pub fn lower(self) -> (precedence: Precedence)
        ensures
            precedence == lower_of(self),
            level_of(precedence) == if self == Precedence::Lowest {
                0
            } else {
                level_of(self) - 1
            },
    {
        match self {
            Precedence::Lowest => Precedence::Lowest,
            _ => match Precedence::from_repr(self.level() - 1) {
                Some(precedence) => precedence,
                None => Precedence::Lowest,
            },
        }
    }
}

/// The parsing functions that a rule can name.
#[derive(Copy, Clone, Debug, PartialEq, Eq, Structural)]
pub enum ParseFn {
    Grouping,
    Unary,
    Binary,
    Variable,
    String,
    Number,
    Literal,
    And,
    Or,
}

/// The rule of a token kind: the function that parses an expression which
/// starts with such a token, the function that parses one which goes on with
/// it, and the precedence of the token as an operator between two operands.
#[derive(Copy, Clone, Debug, PartialEq, Eq, Structural)]
pub struct ParseRule(pub Option<ParseFn>, pub Option<ParseFn>, pub Precedence);

impl ParseRule {
    pub fn prefix(&self) -> (prefix: Option<ParseFn>)
        ensures
            prefix == self.0,
    {
        self.0
    }

    pub fn infix(&self) -> (infix: Option<ParseFn>)
        ensures
            infix == self.1,
    {
        self.1
    }

    pub fn precedence(&self) -> (precedence: Precedence)
        ensures
            precedence == self.2,
    {
        self.2
    }
}

/// The table of rules, by token kind.
pub open spec fn rule_of(token_kind: TokenKind) -> ParseRule {
    match token_kind {
        TokenKind::LeftParen => ParseRule(Some(ParseFn::Grouping), None, Precedence::Lowest),
        TokenKind::Minus => ParseRule(
            Some(ParseFn::Unary),
            Some(ParseFn::Binary),
            Precedence::Term,
        ),
        TokenKind::Plus => ParseRule(None, Some(ParseFn::Binary), Precedence::Term),
        TokenKind::Slash => ParseRule(None, Some(ParseFn::Binary), Precedence::Factor),
        TokenKind::Star => ParseRule(None, Some(ParseFn::Binary), Precedence::Factor),
        TokenKind::Bang => ParseRule(Some(ParseFn::Unary), None, Precedence::Lowest),
        TokenKind::BangEqual => ParseRule(None, Some(ParseFn::Binary), Precedence::Equality),
        TokenKind::EqualEqual => ParseRule(None, Some(ParseFn::Binary), Precedence::Equality),
        TokenKind::Greater => ParseRule(None, Some(ParseFn::Binary), Precedence::Comparison),
        TokenKind::GreaterEqual => ParseRule(None, Some(ParseFn::Binary), Precedence::Comparison),
        TokenKind::Less => ParseRule(None, Some(ParseFn::Binary), Precedence::Comparison),
        TokenKind::LessEqual => ParseRule(None, Some(ParseFn::Binary), Precedence::Comparison),
        TokenKind::Identifier => ParseRule(Some(ParseFn::Variable), None, Precedence::Lowest),
        TokenKind::String => ParseRule(Some(ParseFn::String), None, Precedence::Lowest),
        TokenKind::Number => ParseRule(Some(ParseFn::Number), None, Precedence::Lowest),
        TokenKind::And => ParseRule(None, Some(ParseFn::And), Precedence::And),
        TokenKind::False => ParseRule(Some(ParseFn::Literal), None, Precedence::Lowest),
        TokenKind::Nil => ParseRule(Some(ParseFn::Literal), None, Precedence::Lowest),
        TokenKind::Or => ParseRule(None, Some(ParseFn::Or), Precedence::Or),
        TokenKind::True => ParseRule(Some(ParseFn::Literal), None, Precedence::Lowest),
        _ => ParseRule(None, None, Precedence::Lowest),
    }
}

/// The rule of `token_kind`.
pub fn get_parse_rule(token_kind: TokenKind) -> (rule: ParseRule)
    ensures
        rule == rule_of(token_kind),
{
    match token_kind {
        TokenKind::LeftParen => ParseRule(Some(ParseFn::Grouping), None, Precedence::Lowest),
        TokenKind::RightParen => ParseRule(None, None, Precedence::Lowest),
        TokenKind::LeftBrace => ParseRule(None, None, Precedence::Lowest),
        TokenKind::RightBrace => ParseRule(None, None, Precedence::Lowest),
        TokenKind::Comma => ParseRule(None, None, Precedence::Lowest),
        TokenKind::Dot => ParseRule(None, None, Precedence::Lowest),
        TokenKind::Minus => ParseRule(
            Some(ParseFn::Unary),
            Some(ParseFn::Binary),
            Precedence::Term,
        ),
        TokenKind::Plus => ParseRule(None, Some(ParseFn::Binary), Precedence::Term),
        TokenKind::Semicolon => ParseRule(None, None, Precedence::Lowest),
        TokenKind::Slash => ParseRule(None, Some(ParseFn::Binary), Precedence::Factor),
        TokenKind::Star => ParseRule(None, Some(ParseFn::Binary), Precedence::Factor),
        TokenKind::Bang => ParseRule(Some(ParseFn::Unary), None, Precedence::Lowest),
        TokenKind::BangEqual => ParseRule(None, Some(ParseFn::Binary), Precedence::Equality),
        TokenKind::Equal => ParseRule(None, None, Precedence::Lowest),
        TokenKind::EqualEqual => ParseRule(None, Some(ParseFn::Binary), Precedence::Equality),
        TokenKind::Greater => ParseRule(None, Some(ParseFn::Binary), Precedence::Comparison),
        TokenKind::GreaterEqual => ParseRule(None, Some(ParseFn::Binary), Precedence::Comparison),
        TokenKind::Less => ParseRule(None, Some(ParseFn::Binary), Precedence::Comparison),
        TokenKind::LessEqual => ParseRule(None, Some(ParseFn::Binary), Precedence::Comparison),
        TokenKind::Identifier => ParseRule(Some(ParseFn::Variable), None, Precedence::Lowest),
        TokenKind::String => ParseRule(Some(ParseFn::String), None, Precedence::Lowest),
        TokenKind::Number => ParseRule(Some(ParseFn::Number), None, Precedence::Lowest),
        TokenKind::And => ParseRule(None, Some(ParseFn::And), Precedence::And),
        TokenKind::Class => ParseRule(None, None, Precedence::Lowest),
        TokenKind::Else => ParseRule(None, None, Precedence::Lowest),
        TokenKind::False => ParseRule(Some(ParseFn::Literal), None, Precedence::Lowest),
        TokenKind::For => ParseRule(None, None, Precedence::Lowest),
        TokenKind::Fun => ParseRule(None, None, Precedence::Lowest),
        TokenKind::If => ParseRule(None, None, Precedence::Lowest),
        TokenKind::Nil => ParseRule(Some(ParseFn::Literal), None, Precedence::Lowest),
        TokenKind::Or => ParseRule(None, Some(ParseFn::Or), Precedence::Or),
        TokenKind::Print => ParseRule(None, None, Precedence::Lowest),
        TokenKind::Return => ParseRule(None, None, Precedence::Lowest),
        TokenKind::Super => ParseRule(None, None, Precedence::Lowest),
        TokenKind::This => ParseRule(None, None, Precedence::Lowest),
        TokenKind::True => ParseRule(Some(ParseFn::Literal), None, Precedence::Lowest),
        TokenKind::Var => ParseRule(None, None, Precedence::Lowest),
        TokenKind::While => ParseRule(None, None, Precedence::Lowest),
        TokenKind::Comment => ParseRule(None, None, Precedence::Lowest),
        TokenKind::Eof => ParseRule(None, None, Precedence::Lowest),
        TokenKind::Dummy => ParseRule(None, None, Precedence::Lowest),
    }
}

/// The largest number of local variables that are alive at one time.
pub const MAX_LOCALS: usize = 256;

/// The largest offset that a jump holds.
pub const MAX_JUMP: usize = 65535;

/// A local variable: its name, and the depth of the scope that declared it,
/// or -1 while its initializer is compiled.
#[derive(Clone, Copy, Debug)]
pub struct Local<'l> {
    name: Token<'l>,
    depth: isize,
}

/// What a local variable is, for contracts.
pub struct LocalView {
    pub name: Seq<char>,
    pub depth: int,
}

/// The text of a token; the empty text where it has none.
pub open spec fn text_of(token: TokenView) -> Seq<char> {
    match token.lexeme {
        Some(text) => text,
        None => Seq::empty(),
    }
}

impl<'l> View for Local<'l> {
    type V = LocalView;

    closed spec fn view(&self) -> LocalView {
        LocalView { name: text_of(self.name@), depth: self.depth as int }
    }
}

impl<'l> Local<'l> {
    pub fn new(name: Token<'l>, depth: isize) -> (local: Self)
        ensures
            local@ == (LocalView { name: text_of(name@), depth: depth as int }),
    {
        Self { name, depth }
    }
}

impl<'l> Default for Local<'l> {
    fn default() -> (local: Self)
        ensures
            local@ == (LocalView { name: Seq::empty(), depth: 0 }),
    {
        Self { name: Token::dummy(), depth: 0 }
    }
}

/// The state of a compilation, for contracts.
pub struct CtxView {
    /// The source text.
    pub source: Seq<char>,
    /// The values of the number literals of the source, in their order.
    pub numbers: Seq<u64>,
    /// How far the source is scanned.
    pub position: int,
    /// The line that the scanner is on.
    pub line: usize,
    pub previous: TokenView,
    pub current: TokenView,
    /// The value of `previous`, where it is a number with a value.
    pub previous_number: Option<u64>,
    /// The value of `current`, where it is a number with a value.
    pub current_number: Option<u64>,
    /// How many of `numbers` were given to tokens.
    pub next_number: int,
    pub chunk: ChunkView,
    /// The texts of the string objects, by their place in the heap.
    pub heap: Seq<Seq<char>>,
    /// The local variables that are alive, the innermost last.
    pub locals: Seq<LocalView>,
    pub scope_depth: int,
}

/// A state of the compilation, or the error that ended it.
/// How a step of the compiler fails: with an error, and the state that it
/// leaves the compiler in.
pub struct Failure {
    pub error: CompilerErrorView,
    pub state: CtxView,
}

/// The failure with the error `error` that leaves the state `state`.
pub open spec fn failing(error: CompilerErrorView, state: CtxView) -> Failure {
    Failure { error, state }
}

pub type Compiled = Result<CtxView, Failure>;

/// What is left to scan, and one more while the current token is not `Eof`.
/// No step of the compiler makes it larger.
pub open spec fn measure(c: CtxView) -> nat {
    (if c.position <= c.source.len() {
        c.source.len() - c.position
    } else {
        0
    } + if c.current.kind == TokenKind::Eof {
        0int
    } else {
        1int
    }) as nat
}

/// `c` where it is no further from the end than `limit`; else an error that
/// no compilation meets.
pub open spec fn within(c: Compiled, limit: CtxView) -> Compiled {
    match c {
        Ok(c) => if measure(c) <= measure(limit) {
            Ok(c)
        } else {
            Err(failing(CompilerErrorView { msg: Seq::empty(), line: 0 }, limit))
        },
        Err(error) => Err(error),
    }
}

/// `c` where it is nearer to the end than `limit`; else an error that no
/// compilation meets.
pub open spec fn nearer(c: Compiled, limit: CtxView) -> Compiled {
    match c {
        Ok(c) => if measure(c) < measure(limit) {
            Ok(c)
        } else {
            Err(failing(CompilerErrorView { msg: Seq::empty(), line: 0 }, limit))
        },
        Err(error) => Err(error),
    }
}

/// The error with `msg` on the line of the current token.
pub open spec fn error_at(c: CtxView, msg: Seq<char>) -> CompilerErrorView {
    CompilerErrorView { msg, line: c.current.line }
}

/// The failure with `msg` on the line of the current token, which leaves
/// the state as it is.
pub open spec fn error_at_current(c: CtxView, msg: Seq<char>) -> Failure {
    failing(error_at(c, msg), c)
}

/// What the scanner finds next: the next token that is no comment, or the
/// error, and the scanner's position and line after it.
pub struct NextToken {
    pub token: Result<TokenView, CompilerErrorView>,
    pub position: int,
    pub line: usize,
}

pub open spec fn next_token_spec(source: Seq<char>, position: int, line: usize) -> NextToken
    decreases source.len() - position,
{
    let scan = scan_spec(source, position, line);
    match scan.token {
        Err(error) => NextToken { token: Err(lifted(error)), position: scan.end, line: scan.line },
        Ok(token) => if token.kind == TokenKind::Comment && position < scan.end <= source.len() {
            next_token_spec(source, scan.end, scan.line)
        } else {
            NextToken { token: Ok(token), position: scan.end, line: scan.line }
        },
    }
}

/// The current token becomes the previous one, and the next token of the
/// source that is no comment the current one. Where the scanner cannot read
/// the next token, the tokens stay and the scanner is past it. A number token takes the next
/// of the values, if one is left.
pub open spec fn advance_spec(c: CtxView) -> Compiled {
    let next = next_token_spec(c.source, c.position, c.line);
    match next.token {
        Err(error) => Err(failing(error, advance_failed_spec(c))),
        Ok(token) => {
            let valued = token.kind == TokenKind::Number && c.next_number < c.numbers.len();
            Ok(
                CtxView {
                    previous: c.current,
                    current: token,
                    position: next.position,
                    line: next.line,
                    previous_number: c.current_number,
                    current_number: if valued {
                        Some(c.numbers[c.next_number])
                    } else {
                        None
                    },
                    next_number: if valued {
                        c.next_number + 1
                    } else {
                        c.next_number
                    },
                    ..c
                },
            )
        },
    }
}

/// The state after `advance` met an error of the scanner: the scanner is
/// past what it could not read, the tokens are as before.
pub open spec fn advance_failed_spec(c: CtxView) -> CtxView {
    let next = next_token_spec(c.source, c.position, c.line);
    CtxView { position: next.position, line: next.line, ..c }
}

/// Whether the current token is of kind `token_kind`; if so it is taken.
pub open spec fn matches_spec(c: CtxView, token_kind: TokenKind) -> Result<
    (CtxView, bool),
    Failure,
> {
    if c.current.kind != token_kind {
        Ok((c, false))
    } else {
        match advance_spec(c) {
            Ok(c) => Ok((c, true)),
            Err(error) => Err(error),
        }
    }
}

/// The current token is taken if it is of kind `token_kind`; else the error
/// is `msg`.
pub open spec fn consume_spec(c: CtxView, token_kind: TokenKind, msg: Seq<char>) -> Compiled {
    if c.current.kind == token_kind {
        advance_spec(c)
    } else {
        Err(error_at_current(c, msg))
    }
}

/// `byte` is added to the code, on the line of the previous token.
pub open spec fn emit_byte_spec(c: CtxView, byte: u8) -> CtxView {
    CtxView {
        chunk: ChunkView {
            code: c.chunk.code.push(byte),
            lines: c.chunk.lines.push(c.previous.line),
            ..c.chunk
        },
        ..c
    }
}

pub open spec fn emit_bytes_spec(c: CtxView, byte1: u8, byte2: u8) -> CtxView {
    emit_byte_spec(emit_byte_spec(c, byte1), byte2)
}

/// The byte of `op` is added to the code.
pub open spec fn emit_op_spec(c: CtxView, op: OpCode) -> CtxView {
    emit_byte_spec(c, opcode_byte(op))
}

pub open spec fn msg_too_many_constants() -> Seq<char> {
    "too many constants in one chunk."@
}

pub open spec fn msg_too_far() -> Seq<char> {
    "too much code to jump over."@
}

pub open spec fn msg_loop_too_large() -> Seq<char> {
    "loop body too large."@
}

pub open spec fn msg_number_without_value() -> Seq<char> {
    "number literal without a value."@
}

pub open spec fn msg_too_many_scopes() -> Seq<char> {
    "too many nested blocks."@
}

pub open spec fn msg_too_many_locals() -> Seq<char> {
    "too many variables in function."@
}

pub open spec fn msg_already_declared() -> Seq<char> {
    "already a variable with this name in this scope."@
}

pub open spec fn msg_own_initializer() -> Seq<char> {
    "can't read local variable in its own initializer."@
}

pub open spec fn msg_expect_expression() -> Seq<char> {
    "expect expression."@
}

pub open spec fn msg_invalid_target() -> Seq<char> {
    "invalid assignment target."@
}

/// `value` becomes a constant of the chunk; the result holds its index. The
/// error comes where the chunk holds `MAX_CONSTANTS` constants already.
pub open spec fn make_constant_spec(c: CtxView, value: Value) -> Result<
    (CtxView, u8),
    Failure,
> {
    if c.chunk.constants.len() >= MAX_CONSTANTS {
        Err(error_at_current(c, msg_too_many_constants()))
    } else {
        Ok(
            (
                CtxView {
                    chunk: ChunkView { constants: c.chunk.constants.push(value), ..c.chunk },
                    ..c
                },
                c.chunk.constants.len() as u8,
            ),
        )
    }
}

/// `value` becomes a constant, and the code pushes it.
pub open spec fn emit_constant_spec(c: CtxView, value: Value) -> Compiled {
    match make_constant_spec(c, value) {
        Ok((c, index)) => Ok(emit_bytes_spec(c, opcode_byte(OpCode::AddConstant), index)),
        Err(error) => Err(error),
    }
}

/// `text` is interned: the state with the heap after it, and the text's
/// handle.
pub open spec fn intern_spec(c: CtxView, text: Seq<char>) -> (CtxView, Handle) {
    let (heap, place) = interned(c.heap, text);
    (CtxView { heap, ..c }, Handle { index: place as usize })
}

/// The text of the previous token is interned and becomes a constant.
pub open spec fn identifier_constant_spec(c: CtxView) -> Result<(CtxView, u8), Failure> {
    let (c, handle) = intern_spec(c, text_of(c.previous));
    make_constant_spec(c, Value::String(handle))
}

/// A jump with a placeholder for its offset is added to the code. The result
/// holds the place of the placeholder.
pub open spec fn emit_jump_spec(c: CtxView, jump_op: OpCode) -> (CtxView, int) {
    (
        emit_byte_spec(emit_byte_spec(emit_op_spec(c, jump_op), 0xff), 0xff),
        c.chunk.code.len() as int + 1,
    )
}

/// The placeholder at `offset` is replaced by the offset of a jump from
/// there to the end of the code. The error comes where that offset does not
/// fit in two bytes.
pub open spec fn patch_jump_spec(c: CtxView, offset: int) -> Compiled {
    let jump = c.chunk.code.len() - offset - 2;
    if jump > MAX_JUMP {
        Err(error_at_current(c, msg_too_far()))
    } else {
        let bytes = offset_bytes(jump as u16);
        Ok(
            CtxView {
                chunk: ChunkView {
                    code: c.chunk.code.update(offset, bytes.0).update(offset + 1, bytes.1),
                    ..c.chunk
                },
                ..c
            },
        )
    }
}

/// A jump back to `loop_start` is added to the code. The error comes where
/// its offset does not fit in two bytes.
pub open spec fn emit_loop_spec(c: CtxView, loop_start: int) -> Compiled {
    let offset = c.chunk.code.len() + 1 - loop_start + 2;
    if offset > MAX_JUMP {
        Err(error_at_current(c, msg_loop_too_large()))
    } else {
        let bytes = offset_bytes(offset as u16);
        Ok(emit_byte_spec(emit_byte_spec(emit_op_spec(c, OpCode::Loop), bytes.0), bytes.1))
    }
}

/// Where the search for `name` among the first `count` of `locals` ends.
pub enum Resolved {
    /// The innermost local of this name, by its slot.
    Local(int),
    /// The innermost local of this name has no value yet.
    Uninitialized,
    /// No local has this name.
    Global,
}

/// The innermost of the first `count` of `locals` that has the name `name`.
pub open spec fn resolve_local_spec(locals: Seq<LocalView>, name: Seq<char>, count: int) -> Resolved
    decreases count,
{
    if count <= 0 {
        Resolved::Global
    } else if locals[count - 1].name == name {
        if locals[count - 1].depth == -1 {
            Resolved::Uninitialized
        } else {
            Resolved::Local(count - 1)
        }
    } else {
        resolve_local_spec(locals, name, count - 1)
    }
}

/// Whether one of the first `count` of `locals` has the name `name` and
/// belongs to the scope of depth `scope_depth`: the locals of that scope are
/// the last ones, down to the first that an outer scope declared.
pub open spec fn declared_in_scope(
    locals: Seq<LocalView>,
    name: Seq<char>,
    scope_depth: int,
    count: int,
) -> bool
    decreases count,
{
    if count <= 0 {
        false
    } else if locals[count - 1].depth != -1 && locals[count - 1].depth < scope_depth {
        false
    } else if locals[count - 1].name == name {
        true
    } else {
        declared_in_scope(locals, name, scope_depth, count - 1)
    }
}

/// A local with the name of `name` and without a value is added.
pub open spec fn add_local_spec(c: CtxView, name: TokenView) -> Compiled {
    if c.locals.len() >= MAX_LOCALS {
        Err(error_at_current(c, msg_too_many_locals()))
    } else {
        Ok(CtxView { locals: c.locals.push(LocalView { name: text_of(name), depth: -1 }), ..c })
    }
}

/// In a block the previous token, a name, is declared as a local. Outside
/// of blocks nothing is done.
pub open spec fn declare_variable_spec(c: CtxView) -> Compiled {
    if c.scope_depth == 0 {
        Ok(c)
    } else if declared_in_scope(
        c.locals,
        text_of(c.previous),
        c.scope_depth,
        c.locals.len() as int,
    ) {
        Err(error_at_current(c, msg_already_declared()))
    } else {
        add_local_spec(c, c.previous)
    }
}

/// The innermost local gets the depth of the scope: it has its value now.
pub open spec fn make_initialized_spec(c: CtxView) -> CtxView {
    if c.locals.len() == 0 {
        c
    } else {
        CtxView {
            locals: c.locals.update(
                c.locals.len() - 1,
                LocalView { depth: c.scope_depth, ..c.locals.last() },
            ),
            ..c
        }
    }
}

/// The variable whose value the code has just pushed is defined: a local has
/// its value there, a global gets it by `DefineGlobal`.
pub open spec fn define_variable_spec(c: CtxView, global_index: u8) -> CtxView {
    if c.scope_depth > 0 {
        make_initialized_spec(c)
    } else {
        emit_bytes_spec(c, opcode_byte(OpCode::DefineGlobal), global_index)
    }
}

/// A name is taken and declared. The result holds the index of the constant
/// with the name for a global, and 0 for a local.
pub open spec fn parse_variable_spec(c: CtxView, msg: Seq<char>) -> Result<
    (CtxView, u8),
    Failure,
> {
    match consume_spec(c, TokenKind::Identifier, msg) {
        Err(error) => Err(error),
        Ok(c) => match declare_variable_spec(c) {
            Err(error) => Err(error),
            Ok(c) => if c.scope_depth > 0 {
                Ok((c, 0))
            } else {
                identifier_constant_spec(c)
            },
        },
    }
}

pub open spec fn begin_scope_spec(c: CtxView) -> Compiled {
    if c.scope_depth >= isize::MAX {
        Err(error_at_current(c, msg_too_many_scopes()))
    } else {
        Ok(CtxView { scope_depth: c.scope_depth + 1, ..c })
    }
}

/// The locals of scopes deeper than `c.scope_depth` go, the innermost first;
/// for each the code pops its value.
pub open spec fn pop_locals_spec(c: CtxView) -> CtxView
    decreases c.locals.len(),
{
    if c.locals.len() > 0 && c.locals.last().depth > c.scope_depth {
        pop_locals_spec(
            CtxView { locals: c.locals.drop_last(), ..emit_op_spec(c, OpCode::Pop) },
        )
    } else {
        c
    }
}

/// The innermost scope ends: its locals go. Outside of blocks nothing ends.
pub open spec fn end_scope_spec(c: CtxView) -> CtxView {
    pop_locals_spec(
        CtxView {
            scope_depth: if c.scope_depth > 0 {
                c.scope_depth - 1
            } else {
                c.scope_depth
            },
            ..c
        },
    )
}

/// What is between the quotes of a string token's text.
pub open spec fn string_body(text: Seq<char>) -> Seq<char> {
    if text.len() >= 2 {
        text.subrange(1, text.len() - 1)
    } else {
        Seq::empty()
    }
}

/// The previous token, a number, becomes a constant that the code pushes.
pub open spec fn number_spec(c: CtxView) -> Compiled {
    match c.previous_number {
        Some(bits) => emit_constant_spec(c, Value::Number(bits)),
        None => Err(error_at_current(c, msg_number_without_value())),
    }
}

/// The previous token, a string, is interned without its quotes and becomes
/// a constant that the code pushes.
pub open spec fn string_spec(c: CtxView) -> Compiled {
    let (c, handle) = intern_spec(c, string_body(text_of(c.previous)));
    emit_constant_spec(c, Value::String(handle))
}

/// The previous token, `false`, `nil` or `true`: the code pushes the value.
pub open spec fn literal_spec(c: CtxView) -> CtxView {
    if c.previous.kind == TokenKind::False {
        emit_op_spec(c, OpCode::AddFalse)
    } else if c.previous.kind == TokenKind::Nil {
        emit_op_spec(c, OpCode::AddNil)
    } else if c.previous.kind == TokenKind::True {
        emit_op_spec(c, OpCode::AddTrue)
    } else {
        c
    }
}

/// The code of the binary operator `operator`, which follows that of its
/// operands.
pub open spec fn binary_operator_spec(c: CtxView, operator: TokenKind) -> CtxView {
    match operator {
        TokenKind::BangEqual => emit_op_spec(emit_op_spec(c, OpCode::Equal), OpCode::Not),
        TokenKind::EqualEqual => emit_op_spec(c, OpCode::Equal),
        TokenKind::Greater => emit_op_spec(c, OpCode::Greater),
        TokenKind::GreaterEqual => emit_op_spec(emit_op_spec(c, OpCode::Less), OpCode::Not),
        TokenKind::Less => emit_op_spec(c, OpCode::Less),
        TokenKind::LessEqual => emit_op_spec(emit_op_spec(c, OpCode::Greater), OpCode::Not),
        TokenKind::Plus => emit_op_spec(c, OpCode::Add),
        TokenKind::Minus => emit_op_spec(c, OpCode::Substract),
        TokenKind::Star => emit_op_spec(c, OpCode::Multiply),
        TokenKind::Slash => emit_op_spec(c, OpCode::Divide),
        _ => c,
    }
}

/// The code of the unary operator `operator`, which follows that of its
/// operand.
pub open spec fn unary_operator_spec(c: CtxView, operator: TokenKind) -> CtxView {
    match operator {
        TokenKind::Bang => emit_op_spec(c, OpCode::Not),
        TokenKind::Minus => emit_op_spec(c, OpCode::Negate),
        _ => c,
    }
}

/// Whether a statement can start with a token of this kind: there the
/// compiler goes on after an error.
pub open spec fn starts_statement(token_kind: TokenKind) -> bool {
    token_kind == TokenKind::Class || token_kind == TokenKind::Fun || token_kind == TokenKind::Var
        || token_kind == TokenKind::For || token_kind == TokenKind::If || token_kind
        == TokenKind::While || token_kind == TokenKind::Print || token_kind == TokenKind::Return
}

/// The code reads or writes a variable: with `can_assign`, an `=` after the
/// name makes it an assignment of the expression that follows.
pub open spec fn access_spec(c: CtxView, get_op: OpCode, set_op: OpCode, arg: u8, can_assign: bool) -> Compiled
    decreases measure(c), 60int,
{
    if !can_assign {
        Ok(emit_bytes_spec(c, opcode_byte(get_op), arg))
    } else {
        match matches_spec(c, TokenKind::Equal) {
            Err(error) => Err(error),
            Ok((next, false)) => Ok(emit_bytes_spec(next, opcode_byte(get_op), arg)),
            Ok((next, true)) => match within(Ok(next), c) {
                Err(error) => Err(error),
                Ok(next) => match expression_spec(next) {
                    Err(error) => Err(error),
                    Ok(next) => Ok(emit_bytes_spec(next, opcode_byte(set_op), arg)),
                },
            },
        }
    }
}

/// The variable `name` is read or assigned: a local by its slot, a global by
/// the constant that holds its name.
pub open spec fn named_variable_spec(c: CtxView, name: TokenView, can_assign: bool) -> Compiled
    decreases measure(c), 65int,
{
    match resolve_local_spec(c.locals, text_of(name), c.locals.len() as int) {
        Resolved::Uninitialized => Err(error_at_current(c, msg_own_initializer())),
        Resolved::Local(slot) => access_spec(
            c,
            OpCode::GetLocal,
            OpCode::SetLocal,
            slot as u8,
            can_assign,
        ),
        Resolved::Global => match identifier_constant_spec(c) {
            Err(error) => Err(error),
            Ok((next, index)) => match within(Ok(next), c) {
                Err(error) => Err(error),
                Ok(next) => access_spec(
                    next,
                    OpCode::GetGlobal,
                    OpCode::SetGlobal,
                    index,
                    can_assign,
                ),
            },
        },
    }
}

/// `( expression )`, after the opening parenthesis.
pub open spec fn grouping_spec(c: CtxView) -> Compiled
    decreases measure(c), 60int,
{
    match expression_spec(c) {
        Err(error) => Err(error),
        Ok(next) => consume_spec(next, TokenKind::RightParen, "expect ')' after expression."@),
    }
}

/// A unary expression, after its operator: the operand, then the operator.
pub open spec fn unary_spec(c: CtxView) -> Compiled
    decreases measure(c), 60int,
{
    match parse_precedence_spec(c, Precedence::Unary) {
        Err(error) => Err(error),
        Ok(next) => Ok(unary_operator_spec(next, c.previous.kind)),
    }
}

/// A binary expression, after its left operand and its operator: the right
/// operand, which binds more tightly than the operator, then the operator.
pub open spec fn binary_spec(c: CtxView) -> Compiled
    decreases measure(c), 60int,
{
    match parse_precedence_spec(c, higher_of(rule_of(c.previous.kind).2)) {
        Err(error) => Err(error),
        Ok(next) => Ok(binary_operator_spec(next, c.previous.kind)),
    }
}

/// `and`, after its left operand: where that is falsey the right operand is
/// jumped over, else it is popped and the right operand evaluated.
pub open spec fn and_spec(c: CtxView) -> Compiled
    decreases measure(c), 60int,
{
    let (jumping, end_jump) = emit_jump_spec(c, OpCode::JumpIfFalse);
    match within(Ok(emit_op_spec(jumping, OpCode::Pop)), c) {
        Err(error) => Err(error),
        Ok(next) => match parse_precedence_spec(next, Precedence::And) {
            Err(error) => Err(error),
            Ok(next) => patch_jump_spec(next, end_jump),
        },
    }
}

/// `or`, after its left operand: where that is falsey it is popped and the
/// right operand evaluated, else the right operand is jumped over.
pub open spec fn or_spec(c: CtxView) -> Compiled
    decreases measure(c), 60int,
{
    let (first, else_jump) = emit_jump_spec(c, OpCode::JumpIfFalse);
    let (second, end_jump) = emit_jump_spec(first, OpCode::Jump);
    match within(patch_jump_spec(second, else_jump), c) {
        Err(error) => Err(error),
        Ok(next) => match within(Ok(emit_op_spec(next, OpCode::Pop)), c) {
            Err(error) => Err(error),
            Ok(next) => match parse_precedence_spec(next, Precedence::Or) {
                Err(error) => Err(error),
                Ok(next) => patch_jump_spec(next, end_jump),
            },
        },
    }
}

/// What the parsing function `parse_fn` does.
pub open spec fn rule_spec(c: CtxView, parse_fn: ParseFn, can_assign: bool) -> Compiled
    decreases measure(c), 70int,
{
    match parse_fn {
        ParseFn::Grouping => grouping_spec(c),
        ParseFn::Unary => unary_spec(c),
        ParseFn::Binary => binary_spec(c),
        ParseFn::Variable => named_variable_spec(c, c.previous, can_assign),
        ParseFn::String => string_spec(c),
        ParseFn::Number => number_spec(c),
        ParseFn::Literal => Ok(literal_spec(c)),
        ParseFn::And => and_spec(c),
        ParseFn::Or => or_spec(c),
    }
}

/// While the current token is an operator that binds at least as tightly as
/// `precedence`, it is taken and what follows it is parsed by its rule.
pub open spec fn infix_loop_spec(c: CtxView, precedence: Precedence, can_assign: bool) -> Compiled
    decreases measure(c), 30int,
{
    if level_of(precedence) == 0 || level_of(precedence) > level_of(rule_of(c.current.kind).2) {
        Ok(c)
    } else {
        match nearer(advance_spec(c), c) {
            Err(error) => Err(error),
            Ok(next) => match rule_of(next.previous.kind).1 {
                None => infix_loop_spec(next, precedence, can_assign),
                Some(parse_fn) => match nearer(rule_spec(next, parse_fn, can_assign), c) {
                    Err(error) => Err(error),
                    Ok(next) => infix_loop_spec(next, precedence, can_assign),
                },
            },
        }
    }
}

/// Where an assignment could stand, an `=` that follows the expression is an
/// error: what stands before it is no variable.
pub open spec fn target_check_spec(c: CtxView, can_assign: bool) -> Compiled {
    if can_assign {
        match matches_spec(c, TokenKind::Equal) {
            Err(error) => Err(error),
            Ok((next, true)) => Err(error_at_current(next, msg_invalid_target())),
            Ok((next, false)) => Ok(next),
        }
    } else {
        Ok(c)
    }
}

/// What follows the operators of an expression: the check of `=`.
pub open spec fn after_operators_spec(c: Compiled, can_assign: bool) -> Compiled {
    match c {
        Err(error) => Err(error),
        Ok(next) => target_check_spec(next, can_assign),
    }
}

/// Whether an assignment can stand in an expression of this precedence.
pub open spec fn can_assign_at(precedence: Precedence) -> bool {
    level_of(precedence) <= level_of(Precedence::Assignment)
}

/// An expression whose operators bind at least as tightly as `precedence`:
/// a token is taken and parsed by the prefix rule of its kind; then operators
/// and their right operands follow. Where an assignment could stand and did
/// not, an `=` that follows is an error.
pub open spec fn parse_precedence_spec(c: CtxView, precedence: Precedence) -> Compiled
    decreases measure(c), 40int,
{
    match advance_spec(c) {
        Err(error) => Err(error),
        Ok(next) => match rule_of(next.previous.kind).0 {
            None => Err(error_at_current(next, msg_expect_expression())),
            Some(parse_fn) => match nearer(Ok(next), c) {
                Err(error) => Err(error),
                Ok(next) => match within(
                    rule_spec(next, parse_fn, can_assign_at(precedence)),
                    c,
                ) {
                    Err(error) => Err(error),
                    Ok(next) => after_operators_spec(
                        infix_loop_spec(next, precedence, can_assign_at(precedence)),
                        can_assign_at(precedence),
                    ),
                },
            },
        },
    }
}

pub open spec fn expression_spec(c: CtxView) -> Compiled
    decreases measure(c), 50int,
{
    parse_precedence_spec(c, Precedence::Assignment)
}

/// `expression ;` : the value is popped.
pub open spec fn expression_statement_spec(c: CtxView) -> Compiled
    decreases measure(c), 75int,
{
    match expression_spec(c) {
        Err(error) => Err(error),
        Ok(next) => match consume_spec(next, TokenKind::Semicolon, "expect ';' after expression."@) {
            Err(error) => Err(error),
            Ok(next) => Ok(emit_op_spec(next, OpCode::Pop)),
        },
    }
}

/// `print expression ;`, after `print`.
pub open spec fn print_statement_spec(c: CtxView) -> Compiled
    decreases measure(c), 75int,
{
    match expression_spec(c) {
        Err(error) => Err(error),
        Ok(next) => match consume_spec(next, TokenKind::Semicolon, "expect ';' after value."@) {
            Err(error) => Err(error),
            Ok(next) => Ok(emit_op_spec(next, OpCode::Print)),
        },
    }
}

/// The rest of an `if` statement after the statement of its `then` branch.
pub open spec fn else_spec(c: CtxView, limit: CtxView, else_jump: int) -> Compiled
    decreases measure(limit), 115int,
{
    match matches_spec(c, TokenKind::Else) {
        Err(error) => Err(error),
        Ok((next, false)) => patch_jump_spec(next, else_jump),
        Ok((next, true)) => match within(Ok(next), limit) {
            Err(error) => Err(error),
            Ok(next) => match statement_spec(next) {
                Err(error) => Err(error),
                Ok(next) => patch_jump_spec(next, else_jump),
            },
        },
    }
}

/// `( condition )`, then a jump that is taken where the condition is
/// falsey, and the pop of the condition where it is not. The result holds the
/// place of the jump's offset. `open_msg` is the error where no parenthesis
/// opens.
pub open spec fn condition_spec(c: CtxView, open_msg: Seq<char>) -> Result<
    (CtxView, int),
    Failure,
>
    decreases measure(c), 118int,
{
    match within(consume_spec(c, TokenKind::LeftParen, open_msg), c) {
        Err(error) => Err(error),
        Ok(next) => match expression_spec(next) {
            Err(error) => Err(error),
            Ok(next) => match consume_spec(
                next,
                TokenKind::RightParen,
                "expect ')' after condition."@,
            ) {
                Err(error) => Err(error),
                Ok(next) => {
                    let (jumping, jump) = emit_jump_spec(next, OpCode::JumpIfFalse);
                    Ok((emit_op_spec(jumping, OpCode::Pop), jump))
                },
            },
        },
    }
}

/// `c` where it is no further from the end than `limit`; else an error that
/// no compilation meets.
pub open spec fn within_jump(c: Result<(CtxView, int), Failure>, limit: CtxView) -> Result<
    (CtxView, int),
    Failure,
> {
    match c {
        Ok((c, jump)) => if measure(c) <= measure(limit) {
            Ok((c, jump))
        } else {
            Err(failing(CompilerErrorView { msg: Seq::empty(), line: 0 }, limit))
        },
        Err(error) => Err(error),
    }
}

/// The end of the `then` branch of an `if` statement: a jump over the `else`
/// branch; the jump over the `then` branch lands here, where the condition is
/// popped.
pub open spec fn then_end_spec(c: CtxView, then_jump: int) -> Result<
    (CtxView, int),
    Failure,
> {
    let (jumping, else_jump) = emit_jump_spec(c, OpCode::Jump);
    match patch_jump_spec(jumping, then_jump) {
        Err(error) => Err(error),
        Ok(next) => Ok((emit_op_spec(next, OpCode::Pop), else_jump)),
    }
}

/// `if ( condition ) statement`, with or without `else statement`, after
/// `if`.
pub open spec fn if_statement_spec(c: CtxView) -> Compiled
    decreases measure(c), 120int,
{
    match within_jump(condition_spec(c, "expect '(' after 'if'."@), c) {
        Err(error) => Err(error),
        Ok((next, then_jump)) => match statement_spec(next) {
            Err(error) => Err(error),
            Ok(next) => match within_jump(then_end_spec(next, then_jump), c) {
                Err(error) => Err(error),
                Ok((next, else_jump)) => else_spec(next, c, else_jump),
            },
        },
    }
}

/// The rest of a `while` statement after its body.
pub open spec fn loop_end_spec(c: CtxView, loop_start: int, exit_jump: int) -> Compiled {
    match emit_loop_spec(c, loop_start) {
        Err(error) => Err(error),
        Ok(next) => match patch_jump_spec(next, exit_jump) {
            Err(error) => Err(error),
            Ok(next) => Ok(emit_op_spec(next, OpCode::Pop)),
        },
    }
}

/// `while ( condition ) statement`, after `while`.
pub open spec fn while_statement_spec(c: CtxView) -> Compiled
    decreases measure(c), 120int,
{
    match within_jump(condition_spec(c, "expect '(' after 'while'."@), c) {
        Err(error) => Err(error),
        Ok((next, exit_jump)) => match statement_spec(next) {
            Err(error) => Err(error),
            Ok(next) => loop_end_spec(next, c.chunk.code.len() as int, exit_jump),
        },
    }
}

/// The declarations of a block, up to its closing brace or the end.
pub open spec fn block_loop_spec(c: CtxView) -> Compiled
    decreases measure(c), 100int,
{
    if c.current.kind == TokenKind::RightBrace || c.current.kind == TokenKind::Eof {
        Ok(c)
    } else {
        match nearer(declaration_spec(c), c) {
            Err(error) => Err(error),
            Ok(next) => block_loop_spec(next),
        }
    }
}

/// `{ declarations }`, after the opening brace.
pub open spec fn block_spec(c: CtxView) -> Compiled
    decreases measure(c), 110int,
{
    match block_loop_spec(c) {
        Err(error) => Err(error),
        Ok(next) => consume_spec(next, TokenKind::RightBrace, "expect '}' after block."@),
    }
}

/// A block in a scope of its own, after the opening brace.
pub open spec fn scoped_block_spec(c: CtxView) -> Compiled
    decreases measure(c), 115int,
{
    match within(begin_scope_spec(c), c) {
        Err(error) => Err(error),
        Ok(next) => match block_spec(next) {
            Err(error) => Err(error),
            Ok(next) => Ok(end_scope_spec(next)),
        },
    }
}

/// A statement: by its first token a `print`, `if` or `while` statement or
/// a block, else an expression statement.
pub open spec fn statement_spec(c: CtxView) -> Compiled
    decreases measure(c), 80int,
{
    if c.current.kind == TokenKind::Print {
        match nearer(advance_spec(c), c) {
            Err(error) => Err(error),
            Ok(next) => print_statement_spec(next),
        }
    } else if c.current.kind == TokenKind::If {
        match nearer(advance_spec(c), c) {
            Err(error) => Err(error),
            Ok(next) => if_statement_spec(next),
        }
    } else if c.current.kind == TokenKind::While {
        match nearer(advance_spec(c), c) {
            Err(error) => Err(error),
            Ok(next) => while_statement_spec(next),
        }
    } else if c.current.kind == TokenKind::LeftBrace {
        match nearer(advance_spec(c), c) {
            Err(error) => Err(error),
            Ok(next) => scoped_block_spec(next),
        }
    } else {
        expression_statement_spec(c)
    }
}

/// The initializer of a variable: the expression after `=`, or `nil`.
pub open spec fn initializer_spec(c: CtxView, limit: CtxView) -> Compiled
    decreases measure(limit), 82int,
{
    match matches_spec(c, TokenKind::Equal) {
        Err(error) => Err(error),
        Ok((next, false)) => Ok(emit_op_spec(next, OpCode::AddNil)),
        Ok((next, true)) => match within(Ok(next), limit) {
            Err(error) => Err(error),
            Ok(next) => expression_spec(next),
        },
    }
}

/// `var name ;` or `var name = expression ;`, after `var`.
pub open spec fn var_declaration_spec(c: CtxView) -> Compiled
    decreases measure(c), 85int,
{
    match parse_variable_spec(c, "expect variable name."@) {
        Err(error) => Err(error),
        Ok((next, global)) => match initializer_spec(next, c) {
            Err(error) => Err(error),
            Ok(next) => match consume_spec(
                next,
                TokenKind::Semicolon,
                "expect ';' after variable declaration."@,
            ) {
                Err(error) => Err(error),
                Ok(next) => Ok(define_variable_spec(next, global)),
            },
        },
    }
}

/// A declaration: of a variable after `var`, else a statement.
pub open spec fn declaration_spec(c: CtxView) -> Compiled
    decreases measure(c), 90int,
{
    if c.current.kind == TokenKind::Var {
        match nearer(advance_spec(c), c) {
            Err(error) => Err(error),
            Ok(next) => var_declaration_spec(next),
        }
    } else {
        statement_spec(c)
    }
}

/// The declarations of a program up to the end of the source; then the code
/// returns.
pub open spec fn program_spec(c: CtxView) -> Compiled
    decreases measure(c),
{
    match matches_spec(c, TokenKind::Eof) {
        Err(error) => Err(error),
        Ok((next, true)) => Ok(emit_op_spec(next, OpCode::Return)),
        Ok((_, false)) => match nearer(declaration_spec(c), c) {
            Err(error) => Err(error),
            Ok(next) => program_spec(next),
        },
    }
}

/// The places in the code between the declarations of a program: where
/// each of them starts, and where the `Return` stands that ends the program.
pub open spec fn program_marks(c: CtxView) -> Set<int>
    decreases measure(c),
{
    match matches_spec(c, TokenKind::Eof) {
        Err(_) => Set::empty(),
        Ok((_, true)) => Set::empty().insert(c.chunk.code.len() as int),
        Ok((_, false)) => match nearer(declaration_spec(c), c) {
            Err(_) => Set::empty(),
            Ok(next) => program_marks(next).insert(c.chunk.code.len() as int),
        },
    }
}

/// The state in which the compilation of `source` starts.
pub open spec fn initial_state(source: Seq<char>, numbers: Seq<u64>, heap: Seq<Seq<char>>) -> CtxView {
    CtxView {
        source,
        numbers,
        position: 0,
        line: 1,
        previous: dummy_token(),
        current: dummy_token(),
        previous_number: None,
        current_number: None,
        next_number: 0,
        chunk: ChunkView { code: Seq::empty(), constants: Seq::empty(), lines: Seq::empty() },
        heap,
        locals: Seq::empty(),
        scope_depth: 0,
    }
}

/// What the compilation of `source` gives: the chunk, and the heap with
/// the strings and names of the program interned; or the first error.
///
/// `numbers` holds the value of each number literal of the source, in the
/// order of the literals, each by its bit pattern.
pub open spec fn compile_spec(source: Seq<char>, numbers: Seq<u64>, heap: Seq<Seq<char>>) -> Result<
    (ChunkView, Seq<Seq<char>>),
    CompilerErrorView,
> {
    match advance_spec(initial_state(source, numbers, heap)) {
        Err(failure) => Err(failure.error),
        Ok(c) => match program_spec(c) {
            Err(failure) => Err(failure.error),
            Ok(c) => Ok((c.chunk, c.heap)),
        },
    }
}

/// The places in the code of the program `source` between its statements,
/// those in blocks left out.
pub open spec fn statement_marks(source: Seq<char>, numbers: Seq<u64>, heap: Seq<Seq<char>>) -> Set<int> {
    match advance_spec(initial_state(source, numbers, heap)) {
        Err(_) => Set::empty(),
        Ok(c) => program_marks(c),
    }
}

/// Tokens are skipped up to the end of the source, to a token that follows a
/// semicolon, or to one with which a statement starts. What the scanner
/// cannot read is skipped too.
pub open spec fn synchronize_spec(c: CtxView) -> CtxView
    decreases measure(c),
{
    if c.current.kind == TokenKind::Eof || c.previous.kind == TokenKind::Semicolon
        || starts_statement(c.current.kind) {
        c
    } else {
        let next = match advance_spec(c) {
            Ok(next) => next,
            Err(_) => advance_failed_spec(c),
        };
        if measure(next) < measure(c) {
            synchronize_spec(next)
        } else {
            next
        }
    }
}

/// One step of the compiler after an error, from where it can go on: it
/// takes the `Eof` token, or compiles the next declaration. The state after
/// the step, whether the compiler is in panic mode then, which it is after
/// an error, and whether it has come to the end of the source.
pub open spec fn recover_next_spec(c: CtxView) -> (CtxView, bool, bool) {
    match matches_spec(c, TokenKind::Eof) {
        Err(failure) => (failure.state, true, false),
        Ok((next, true)) => (next, false, true),
        Ok((_, false)) => match declaration_spec(c) {
            Ok(next) => (next, false, false),
            Err(failure) => (failure.state, true, false),
        },
    }
}

/// One step of the compiler after an error: in panic mode it synchronizes
/// first.
pub open spec fn recover_step_spec(c: CtxView, panic_mode: bool) -> (CtxView, bool, bool) {
    recover_next_spec(if panic_mode {
        synchronize_spec(c)
    } else {
        c
    })
}

/// The state in which the compiler ends after an error: it goes on step by
/// step to the end of the source, past the `Eof` token.
pub open spec fn recover_spec(c: CtxView, panic_mode: bool) -> CtxView
    decreases measure(c),
{
    let (next, mode, done) = recover_step_spec(c, panic_mode);
    if done || measure(next) >= measure(c) {
        next
    } else {
        recover_spec(next, mode)
    }
}

/// The heap after the compilation of `source`: with the strings and names
/// of the program interned, also of what follows the first error.
pub open spec fn compiled_heap(source: Seq<char>, numbers: Seq<u64>, heap: Seq<Seq<char>>) -> Seq<
    Seq<char>,
> {
    match advance_spec(initial_state(source, numbers, heap)) {
        Err(failure) => recover_spec(failure.state, true).heap,
        Ok(c) => match program_spec(c) {
            Err(failure) => recover_spec(failure.state, true).heap,
            Ok(c) => c.heap,
        },
    }
}

/// `longer` starts with the texts of `shorter`: every handle of the one heap
/// names the same text in the other.
pub open spec fn extends(shorter: Seq<Seq<char>>, longer: Seq<Seq<char>>) -> bool {
    shorter.len() <= longer.len() && forall|i: int|
        0 <= i < shorter.len() ==> #[trigger] longer[i] == shorter[i]
}

/// What holds of the state before and after every step of the compiler: the
/// source and the values of its numbers stay, the end comes no further, no
/// code is taken back, and the heap keeps its objects.
pub open spec fn follows(before: CtxView, after: CtxView) -> bool {
    &&& after.source == before.source
    &&& after.numbers == before.numbers
    &&& measure(after) <= measure(before)
    &&& after.chunk.code.len() >= before.chunk.code.len()
    &&& after.chunk.constants.len() >= before.chunk.constants.len()
    &&& forall|k: int|
        0 <= k < before.chunk.constants.len() ==> #[trigger] after.chunk.constants[k]
            == before.chunk.constants[k]
    &&& extends(before.heap, after.heap)
}

/// What holds of the state before and after every step of the compiler that
/// adds to the code: `follows`, and the code that was there stays.
pub open spec fn continues(before: CtxView, after: CtxView) -> bool {
    follows(before, after) && prefix_kept(before.chunk.code, after.chunk.code)
}

/// Whether a chunk with the code `code` and the constants `constants` is well
/// formed and fits the depths `depths` of the stack, but for the jumps
/// without an offset: `jumps` gives, by the place of its operand, the depth
/// of the stack at each of them. `objects` is the number of the objects of
/// the heap.
#[verifier::opaque]
pub open spec fn sound_of(
    code: Seq<u8>,
    constants: Seq<Value>,
    objects: nat,
    jumps: Map<int, int>,
    depths: Map<int, int>,
) -> bool {
    &&& whole(code)
    &&& landed(code, jumps.dom())
    &&& named(ChunkView { code, constants, lines: Seq::empty() }, objects)
    &&& typed(code, depths, jumps)
    &&& forall|offset: int| #[trigger] jumps.contains_key(offset) ==> offset + 2 <= code.len()
}

/// A sound chunk stays sound when the heap grows and constants with known
/// objects are added.
pub proof fn lemma_sound_grows(
    code: Seq<u8>,
    constants: Seq<Value>,
    objects: nat,
    jumps: Map<int, int>,
    depths: Map<int, int>,
    more_constants: Seq<Value>,
    more_objects: nat,
)
    requires
        sound_of(code, constants, objects, jumps, depths),
        objects <= more_objects,
        constants.len() <= more_constants.len(),
        forall|k: int| 0 <= k < constants.len() ==> more_constants[k] == constants[k],
        forall|k: int|
            constants.len() <= k < more_constants.len() ==> value_known(
                more_constants[k],
                more_objects,
            ),
    ensures
        sound_of(code, more_constants, more_objects, jumps, depths),
{
    reveal(sound_of);
    let before = ChunkView { code, constants, lines: Seq::empty() };
    let after = ChunkView { code, constants: more_constants, lines: Seq::empty() };
    assert forall|k: int| 0 <= k < after.constants.len() implies value_known(
        #[trigger] after.constants[k],
        more_objects,
    ) by {
        if k < constants.len() {
            assert(value_known(before.constants[k], objects));
        }
    }
}

/// A sound chunk to which a fitting instruction is added, for which the
/// stack is deep enough, is sound; a jump forward that is added has no
/// offset yet.
pub proof fn lemma_sound_extends(
    code: Seq<u8>,
    constants: Seq<Value>,
    objects: nat,
    jumps: Map<int, int>,
    depths: Map<int, int>,
    op: OpCode,
    extra: Seq<u8>,
)
    requires
        sound_of(code, constants, objects, jumps, depths),
        crate::bytecode::instruction_fits(
            ChunkView { code, constants, lines: Seq::empty() },
            op,
            extra,
        ),
        instruction_flows(code, depths, op, extra),
    ensures
        sound_of(
            code + extra,
            constants,
            objects,
            jumps_after(jumps, depths, code.len() as int, op),
            depths_after(depths, code.len() as int, op),
        ),
        !jumps.contains_key(code.len() as int + 1),
        !depths.contains_key(code.len() as int + 1 + operand_width(op)),
{
    reveal(sound_of);
    let chunk = ChunkView { code, constants, lines: Seq::empty() };
    let end = code.len() as int;
    lemma_formed_extends(chunk, objects, jumps.dom(), op, extra);
    lemma_whole_extends(code, op, extra);
    lemma_typed_extends(code, depths, jumps, op, extra);
    assert(ChunkView { code: code + extra, ..chunk } == (ChunkView {
        code: code + extra,
        constants,
        lines: Seq::empty(),
    }));
    if op == OpCode::JumpIfFalse || op == OpCode::Jump {
        assert(jumps_after(jumps, depths, end, op).dom() =~= jumps.dom().insert(end + 1));
    }
}

/// A sound chunk in which a jump without an offset gets the offset that
/// leads to the end of the code is sound, where the stack at the end is as
/// deep as at the jump, or no instruction leads to the end yet.
pub proof fn lemma_sound_patched(
    code: Seq<u8>,
    constants: Seq<Value>,
    objects: nat,
    jumps: Map<int, int>,
    depths: Map<int, int>,
    offset: int,
    low: u8,
    high: u8,
)
    requires
        sound_of(code, constants, objects, jumps, depths),
        jump_at(code, offset),
        jumps.contains_key(offset),
        offset + 2 + offset_of(low, high) == code.len(),
        depths.contains_key(code.len() as int) ==> depths[code.len() as int] == jumps[offset],
    ensures
        sound_of(
            code.update(offset, low).update(offset + 1, high),
            constants,
            objects,
            jumps.remove(offset),
            depths.insert(code.len() as int, jumps[offset]),
        ),
{
    reveal(sound_of);
    let chunk = ChunkView { code, constants, lines: Seq::empty() };
    lemma_formed_patched(chunk, objects, jumps.dom(), offset, low, high);
    lemma_whole_patched(code, offset, low, high);
    lemma_typed_patched(code, depths, jumps, offset, low, high);
    assert(jumps.remove(offset).dom() =~= jumps.dom().remove(offset));
    assert(ChunkView { code: code.update(offset, low).update(offset + 1, high), ..chunk }
        == (ChunkView {
        code: code.update(offset, low).update(offset + 1, high),
        constants,
        lines: Seq::empty(),
    }));
}

/// The code of a sound chunk is made of whole instructions, its jumps and
/// depths lie in the code, and no depth is negative.
pub proof fn lemma_sound_whole(
    code: Seq<u8>,
    constants: Seq<Value>,
    objects: nat,
    jumps: Map<int, int>,
    depths: Map<int, int>,
)
    requires
        sound_of(code, constants, objects, jumps, depths),
    ensures
        whole(code),
        forall|offset: int| #[trigger] jumps.contains_key(offset) ==> offset + 2 <= code.len(),
        forall|k: int| #[trigger] depths.contains_key(k) ==> 0 <= k <= code.len() && depths[k] >= 0,
{
    reveal(sound_of);
}

/// A sound chunk in which every jump has its offset is well formed and
/// fits its depths, and an empty chunk is sound on an empty stack.
pub proof fn lemma_sound_ends(chunk: ChunkView, objects: nat, depths: Map<int, int>)
    ensures
        sound_of(chunk.code, chunk.constants, objects, Map::empty(), depths) ==> well_formed(
            chunk,
            objects,
        ) && typed(chunk.code, depths, Map::empty()),
        sound_of(Seq::empty(), Seq::empty(), objects, Map::empty(), Map::<int, int>::empty().insert(0, 0)),
{
    reveal(sound_of);
    let bare = ChunkView { code: chunk.code, constants: chunk.constants, lines: Seq::empty() };
    assert(Map::<int, int>::empty().dom() =~= Set::<int>::empty());
    if sound_of(chunk.code, chunk.constants, objects, Map::empty(), depths) {
        assert forall|p: int|
            0 <= p < chunk.code.len() && #[trigger] boundary(chunk.code, p) implies match opcode_of(
            chunk.code[p],
        ) {
            Some(op) => crate::bytecode::names_constant(op) ==> p + 1 < chunk.code.len()
                && operand_fits(chunk.constants, op, chunk.code[p + 1]),
            None => true,
        } by {
            assert(boundary(bare.code, p));
        }
        assert forall|k: int| 0 <= k < chunk.constants.len() implies value_known(
            #[trigger] chunk.constants[k],
            objects,
        ) by {
            assert(value_known(bare.constants[k], objects));
        }
    }
}

/// Whether every depth that `before` gives is given by `after` too.
pub open spec fn kept_in(before: Map<int, int>, after: Map<int, int>) -> bool {
    forall|k: int| #[trigger] before.contains_key(k) ==> after.contains_key(k) && after[k] == before[k]
}

/// What a step leaves of a sound chunk whose end can be reached: the chunk
/// stays sound, the stack at its end is deeper by `delta`, the jumps without
/// an offset are the same, and the depths that were given stay.
pub open spec fn calm(before: CompilerCtx, after: CompilerCtx, delta: int) -> bool {
    before.sound() && before.live() ==> {
        &&& after.sound()
        &&& after.live()
        &&& after.depth() == before.depth() + delta
        &&& after.jumps() == before.jumps()
        &&& kept_in(before.depths(), after.depths())
    }
}

/// What every step that compiles a whole construct leaves as it was: the
/// scopes and the locals, and the chunk is `calm`.
pub open spec fn steady(before: CompilerCtx, after: CompilerCtx, delta: int) -> bool {
    &&& after@.scope_depth == before@.scope_depth
    &&& after@.locals == before@.locals
    &&& calm(before, after, delta)
}

/// The number of the locals that hold a value: all of them, but for a last
/// one that is declared and has no value yet.
pub open spec fn base(locals: Seq<LocalView>) -> int {
    if locals.len() > 0 && locals.last().depth == -1 {
        locals.len() - 1
    } else {
        locals.len() as int
    }
}

/// Whether the chunk is sound, the end of its code can be reached, and the
/// stack there holds the locals that have a value.
pub open spec fn fits(c: CompilerCtx) -> bool {
    c.sound() && c.live() && base(c@.locals) <= c.depth()
}

/// Whether every local has a value and was declared in a scope that is open,
/// the locals of inner scopes behind those of outer ones.
pub open spec fn locals_set(locals: Seq<LocalView>, scope_depth: int) -> bool {
    &&& forall|i: int| 0 <= i < locals.len() ==> 1 <= (#[trigger] locals[i]).depth <= scope_depth
    &&& forall|i: int, j: int|
        0 <= i < j < locals.len() ==> (#[trigger] locals[i]).depth <= (#[trigger] locals[j]).depth
}

/// What holds between two statements of a sound chunk: the end of the code
/// can be reached, every local has a value, and the stack at the end of the
/// code holds the locals and nothing else.
pub open spec fn settled(c: CompilerCtx) -> bool {
    &&& locals_set(c@.locals, c@.scope_depth)
    &&& c.sound()
    &&& c.live()
    &&& c.depth() == c@.locals.len()
}

/// Whether `after` is `before` with locals of the scope `scope_depth` added.
pub open spec fn grown(before: Seq<LocalView>, after: Seq<LocalView>, scope_depth: int) -> bool {
    &&& before.len() <= after.len()
    &&& forall|i: int| 0 <= i < before.len() ==> after[i] == before[i]
    &&& forall|i: int| before.len() <= i < after.len() ==> (#[trigger] after[i]).depth == scope_depth
}

/// What a declaration or a statement leaves: the scopes are the same, locals
/// of the current scope may be added, and the stack is deeper by one value
/// for each of them.
pub open spec fn declared(before: CompilerCtx, after: CompilerCtx) -> bool {
    &&& after@.scope_depth == before@.scope_depth
    &&& grown(before@.locals, after@.locals, before@.scope_depth)
    &&& calm(before, after, after@.locals.len() - before@.locals.len())
}

/// Whether the token is an operator between two operands.
pub open spec fn is_binary_operator(kind: TokenKind) -> bool {
    kind == TokenKind::BangEqual || kind == TokenKind::EqualEqual || kind == TokenKind::Greater
        || kind == TokenKind::GreaterEqual || kind == TokenKind::Less || kind
        == TokenKind::LessEqual || kind == TokenKind::Plus || kind == TokenKind::Minus || kind
        == TokenKind::Star || kind == TokenKind::Slash
}

/// Whether the token is a literal with a name.
pub open spec fn is_literal(kind: TokenKind) -> bool {
    kind == TokenKind::False || kind == TokenKind::Nil || kind == TokenKind::True
}

/// Whether the parse function continues an expression whose left operand is
/// on the stack.
pub open spec fn is_infix(parse_fn: ParseFn) -> bool {
    parse_fn == ParseFn::Binary || parse_fn == ParseFn::And || parse_fn == ParseFn::Or
}

/// By how many values the code of a parse function, run after the token
/// `kind`, makes the stack deeper.
pub open spec fn rule_effect(parse_fn: ParseFn, kind: TokenKind) -> int {
    match parse_fn {
        ParseFn::Literal => if is_literal(kind) {
            1
        } else {
            0
        },
        ParseFn::Binary => if is_binary_operator(kind) {
            0
        } else {
            1
        },
        ParseFn::And | ParseFn::Or => 0,
        _ => 1,
    }
}

/// What a step that adds no code leaves as it was: the code's length, the
/// jumps without an offset, the depths, and the soundness of the chunk.
pub open spec fn still(before: CompilerCtx, after: CompilerCtx) -> bool {
    &&& after@.chunk.code.len() == before@.chunk.code.len()
    &&& after.jumps() == before.jumps()
    &&& after.depths() == before.depths()
    &&& before.sound() ==> after.sound()
}

/// What a step that adds no code and declares nothing leaves as it was.
pub open spec fn quiet(before: CompilerCtx, after: CompilerCtx) -> bool {
    &&& still(before, after)
    &&& after@.scope_depth == before@.scope_depth
    &&& after@.locals == before@.locals
}

/// Whether the chunk is sound, the end of its code can be reached, and the
/// left operand of an operator is on the stack there, above the locals that
/// have a value.
pub open spec fn above(c: CompilerCtx) -> bool {
    c.sound() && c.live() && base(c@.locals) + 1 <= c.depth()
}

/// By how many values the two bytes, an operation with its operand or two
/// operations, make the stack deeper.
pub open spec fn pair_effect(byte1: u8, byte2: u8) -> int {
    match opcode_of(byte1) {
        None => 0,
        Some(first) => if operand_width(first) == 1 {
            effect(first)
        } else {
            effect(first) + match opcode_of(byte2) {
                None => 0,
                Some(second) => effect(second),
            }
        },
    }
}

/// Whether a stack of the depth `depth` is deep enough for the two bytes, an
/// operation with its operand or two operations.
pub open spec fn pair_flows(depth: int, byte1: u8, byte2: u8) -> bool {
    match opcode_of(byte1) {
        None => false,
        Some(first) => {
            &&& falls(first)
            &&& needs(first) == 0 || needs(first) <= depth
            &&& uses_local(first) ==> byte2 < depth
            &&& operand_width(first) == 0 ==> match opcode_of(byte2) {
                None => false,
                Some(second) => falls(second) && (needs(second) == 0 || needs(second) <= depth
                    + effect(first)),
            }
        },
    }
}

/// The depths after the two bytes, an operation with its operand or two
/// operations, are added to code of length `end`.
pub open spec fn pair_depths(depths: Map<int, int>, end: int, byte1: u8, byte2: u8) -> Map<int, int> {
    match opcode_of(byte1) {
        None => depths,
        Some(first) => if operand_width(first) == 1 {
            depths_after(depths, end, first)
        } else {
            match opcode_of(byte2) {
                None => depths,
                Some(second) => depths_after(depths_after(depths, end, first), end + 1, second),
            }
        },
    }
}

/// The parse function of a token at the start of an expression leaves one
/// value; the one of a token that goes on an expression takes the left
/// operand and leaves one value.
pub proof fn lemma_rule_effects(kind: TokenKind)
    ensures
        match rule_of(kind).0 {
            Some(parse_fn) => !is_infix(parse_fn) && rule_effect(parse_fn, kind) == 1,
            None => true,
        },
        match rule_of(kind).1 {
            Some(parse_fn) => is_infix(parse_fn) && rule_effect(parse_fn, kind) == 0,
            None => true,
        },
{
}

/// Whether the two bytes are an operation with a fitting operand, or two
/// operations without operands.
pub open spec fn pair_fits(constants: Seq<Value>, byte1: u8, byte2: u8) -> bool {
    match opcode_of(byte1) {
        None => false,
        Some(first) => (operand_width(first) == 1 && operand_fits(constants, first, byte2)) || (
        operand_width(first) == 0 && match opcode_of(byte2) {
            None => false,
            Some(second) => operand_width(second) == 0,
        }),
    }
}

/// The result of a step and the state after it are what `spec` says: the
/// state after the step where it is done, the error and the state that is
/// left where it fails.
pub open spec fn agrees(result: Result<(), CompilerError>, after: CtxView, spec: Compiled) -> bool {
    match result {
        Ok(()) => spec == Ok::<CtxView, Failure>(after),
        Err(error) => spec == Err::<CtxView, Failure>(failing(error@, after)),
    }
}

/// The compilation context. This struct holds all the state needed during
/// compilation.
pub struct CompilerCtx<'source> {
    chunk: Chunk,
    previous: Token<'source>,
    current: Token<'source>,
    scanner: Scanner<'source>,
    had_error: bool,
    panic_mode: bool,
    options: Option<&'source CompilerOptions>,
    scope_depth: isize,
    locals: Array<Local<'source>>,
    heap: Heap,
    numbers: &'source Vec<u64>,
    next_number: usize,
    previous_number: Option<u64>,
    current_number: Option<u64>,
    /// The places of the operands of the jumps that have no offset yet.
    jumps: Ghost<Map<int, int>>,
    depths: Ghost<Map<int, int>>,
}

impl<'source> View for CompilerCtx<'source> {
    type V = CtxView;

    closed spec fn view(&self) -> CtxView {
        CtxView {
            source: self.scanner@.source,
            numbers: self.numbers@,
            position: self.scanner@.current,
            line: self.scanner@.line,
            previous: self.previous@,
            current: self.current@,
            previous_number: self.previous_number,
            current_number: self.current_number,
            next_number: self.next_number as int,
            chunk: self.chunk@,
            heap: self.heap@,
            locals: Seq::new(self.locals@.len(), |i: int| self.locals@[i]@),
            scope_depth: self.scope_depth as int,
        }
    }
}

impl<'source> CompilerCtx<'source> {
    /// The context's invariant: its parts are well formed, there are no more
    /// locals than slots, the scanner is within the source, and at its end
    /// where the current token is `Eof`.
    pub closed spec fn wf(&self) -> bool {
        &&& self.chunk.wf()
        &&& self.heap.wf()
        &&& self.scanner.wf()
        &&& self.locals.wf()
        &&& self.locals@.len() <= MAX_LOCALS
        &&& self.scope_depth >= 0
        &&& self.next_number <= self.numbers@.len()
        &&& 0 <= self.scanner@.current <= self.scanner@.source.len()
        &&& self.current@.kind == TokenKind::Eof ==> self.scanner@.current
            == self.scanner@.source.len()
    }

    /// Where the current token is `Eof`, the scanner is at the end of the
    /// source.
    pub proof fn lemma_wf(&self)
        requires
            self.wf(),
        ensures
            self@.current.kind == TokenKind::Eof ==> self@.position == self@.source.len(),
    {
    }

    /// Whether an error was met.
    pub closed spec fn spec_had_error(&self) -> bool {
        self.had_error
    }

    /// Whether the compiler is in panic mode: it has met an error and has
    /// not yet come to where it can go on.
    pub closed spec fn spec_panic_mode(&self) -> bool {
        self.panic_mode
    }

    /// The jumps that have no offset yet: the depth of the stack at each of
    /// them, by the place of its operand.
    pub closed spec fn jumps(&self) -> Map<int, int> {
        self.jumps@
    }

    /// The depth of the stack before each instruction that can be reached,
    /// and at the end of the code where that can be reached.
    pub closed spec fn depths(&self) -> Map<int, int> {
        self.depths@
    }

    /// Whether the end of the code can be reached.
    pub open spec fn live(&self) -> bool {
        self.depths().contains_key(self@.chunk.code.len() as int)
    }

    /// The depth of the stack at the end of the code.
    pub open spec fn depth(&self) -> int {
        self.depths()[self@.chunk.code.len() as int]
    }

    /// Whether the chunk as it stands is well formed and fits the depths,
    /// but for the jumps that have no offset yet.
    pub open spec fn sound(&self) -> bool {
        sound_of(
            self@.chunk.code,
            self@.chunk.constants,
            self@.heap.len(),
            self.jumps(),
            self.depths(),
        )
    }

    pub fn new(
        source: &'source str,
        options: Option<&'source CompilerOptions>,
        heap: Heap,
        numbers: &'source Vec<u64>,
    ) -> (ctx: Self)
        requires
            heap.wf(),
        ensures
            ctx.wf(),
            ctx@ == initial_state(source@, numbers@, heap@),
            !ctx.spec_had_error(),
            !ctx.spec_panic_mode(),
            ctx.jumps() == Map::<int, int>::empty(),
            ctx.depths() == Map::<int, int>::empty().insert(0, 0),
    {
        let scanner = Scanner::new(source);
        proof {
            scanner.lemma_wf();
        }
        let ctx = Self {
            chunk: Chunk::new(),
            options,
            previous: Token::dummy(),
            current: Token::dummy(),
            scanner,
            had_error: false,
            panic_mode: false,
            scope_depth: 0,
            locals: Array::new(),
            heap,
            numbers,
            next_number: 0,
            previous_number: None,
            current_number: None,
            jumps: Ghost(Map::empty()),
            depths: Ghost(Map::<int, int>::empty().insert(0, 0)),
        };
        assert(ctx@.locals =~= Seq::<LocalView>::empty());
        ctx
    }
}

/// Whether the two tokens have the same text.
fn same_name(a: &Token, b: &Token) -> (same: bool)
    ensures
        same == (text_of(a@) == text_of(b@)),
{
    proof {
        reveal_strlit("");
    }
    let left = match a.lexeme() {
        Some(text) => text,
        None => "",
    };
    let right = match b.lexeme() {
        Some(text) => text,
        None => "",
    };
    assert(left@ =~= text_of(a@));
    assert(right@ =~= text_of(b@));
    left.to_owned() == right.to_owned()
}

pub fn advance<'a>(ctx: &mut CompilerCtx<'a>) -> (result: Result<(), CompilerError>)
    requires
        old(ctx).wf(),
    ensures
        final(ctx).wf(),
        continues(old(ctx)@, final(ctx)@),
        agrees(result, final(ctx)@, advance_spec(old(ctx)@)),
        result is Err ==> final(ctx)@ == advance_failed_spec(old(ctx)@),
        result is Ok && old(ctx)@.current.kind != TokenKind::Eof ==> measure(final(ctx)@) < measure(
            old(ctx)@,
        ),
        result is Err ==> measure(final(ctx)@) < measure(old(ctx)@),
        final(ctx).spec_had_error() == old(ctx).spec_had_error(),
        final(ctx).spec_panic_mode() == old(ctx).spec_panic_mode(),
        quiet(*old(ctx), *final(ctx)),
{
    let mut found: Option<Token<'a>> = None;
    while found.is_none()
        invariant
            ctx.wf(),
            ctx@ == (CtxView { position: ctx@.position, line: ctx@.line, ..old(ctx)@ }),
            ctx.spec_had_error() == old(ctx).spec_had_error(),
            ctx.spec_panic_mode() == old(ctx).spec_panic_mode(),
            ctx.jumps() == old(ctx).jumps(),
            ctx.depths() == old(ctx).depths(),
            ctx@.position >= old(ctx)@.position,
            match found {
                None => next_token_spec(ctx@.source, ctx@.position, ctx@.line) == next_token_spec(
                    old(ctx)@.source,
                    old(ctx)@.position,
                    old(ctx)@.line,
                ),
                Some(token) => {
                    let next = next_token_spec(
                        old(ctx)@.source,
                        old(ctx)@.position,
                        old(ctx)@.line,
                    );
                    &&& next.token == Ok::<TokenView, CompilerErrorView>(token@)
                    &&& next.position == ctx@.position
                    &&& next.line == ctx@.line
                    &&& token@.kind != TokenKind::Eof ==> ctx@.position > old(ctx)@.position
                    &&& token@.kind == TokenKind::Eof ==> ctx@.position == ctx@.source.len()
                },
            },
        decreases ctx@.source.len() - ctx@.position + if found is None { 1int } else { 0int },
    {
        proof {
            ctx.scanner.lemma_wf();
        }
        match ctx.scanner.scan_token() {
            Err(error) => {
                proof {
                    ctx.scanner.lemma_wf();
                }
                return Err(CompilerError::from_scanner_error(error));
            },
            Ok(token) => {
                proof {
                    ctx.scanner.lemma_wf();
                }
                if !matches!(token.kind, TokenKind::Comment) {
                    found = Some(token);
                }
            },
        }
    }
    let token = match found {
        Some(token) => token,
        None => Token::dummy(),
    };
    ctx.previous = ctx.current;
    ctx.current = token;
    ctx.previous_number = ctx.current_number;
    if matches!(token.kind, TokenKind::Number) && ctx.next_number < ctx.numbers.len() {
        ctx.current_number = Some(ctx.numbers[ctx.next_number]);
        ctx.next_number += 1;
    } else {
        ctx.current_number = None;
    }
    Ok(())
}

pub fn check(ctx: &CompilerCtx, token_kind: TokenKind) -> (b: bool)
    ensures
        b == (ctx@.current.kind == token_kind),
{
    ctx.current.kind == token_kind
}

pub fn matches(ctx: &mut CompilerCtx, token_kind: TokenKind) -> (result: Result<
    bool,
    CompilerError,
>)
    requires
        old(ctx).wf(),
    ensures
        final(ctx).wf(),
        continues(old(ctx)@, final(ctx)@),
        final(ctx).spec_had_error() == old(ctx).spec_had_error(),
        final(ctx).spec_panic_mode() == old(ctx).spec_panic_mode(),
        result is Ok ==> quiet(*old(ctx), *final(ctx)),
        result == Ok::<bool, CompilerError>(false) ==> *final(ctx) == *old(ctx),
        match result {
            Ok(taken) => matches_spec(old(ctx)@, token_kind) == Ok::<
                (CtxView, bool),
                Failure,
            >((final(ctx)@, taken)) && taken == (old(ctx)@.current.kind == token_kind),
            Err(error) => matches_spec(old(ctx)@, token_kind) == Err::<
                (CtxView, bool),
                Failure,
            >(failing(error@, final(ctx)@)),
        },
        result == Ok::<bool, CompilerError>(true) && token_kind != TokenKind::Eof ==> measure(
            final(ctx)@,
        ) < measure(old(ctx)@),
        result is Err ==> measure(final(ctx)@) < measure(old(ctx)@),
{
    if !check(ctx, token_kind) {
        return Ok(false);
    }
    advance(ctx)?;
    Ok(true)
}

pub fn consume(ctx: &mut CompilerCtx, token_kind: TokenKind, error_msg: &str) -> (result: Result<
    (),
    CompilerError,
>)
    requires
        old(ctx).wf(),
    ensures
        final(ctx).wf(),
        continues(old(ctx)@, final(ctx)@),
        final(ctx).spec_had_error() == old(ctx).spec_had_error(),
        result is Ok ==> quiet(*old(ctx), *final(ctx)),
        agrees(result, final(ctx)@, consume_spec(old(ctx)@, token_kind, error_msg@)),
{
    if ctx.current.kind == token_kind {
        advance(ctx)?;
        return Ok(());
    }
    Err(CompilerError::new(error_msg, ctx.current.line))
}

pub fn emit_byte(ctx: &mut CompilerCtx, byte: u8)
    requires
        old(ctx).wf(),
    ensures
        final(ctx).wf(),
        continues(old(ctx)@, final(ctx)@),
        final(ctx).spec_had_error() == old(ctx).spec_had_error(),
        final(ctx).jumps() == old(ctx).jumps(),
        final(ctx).depths() == old(ctx).depths(),
        final(ctx)@ == emit_byte_spec(old(ctx)@, byte),
{
    let line = ctx.previous.line;

    ctx.chunk.write(byte, line)
}

pub fn emit_bytes(ctx: &mut CompilerCtx, byte1: u8, byte2: u8)
    requires
        old(ctx).wf(),
    ensures
        final(ctx).wf(),
        continues(old(ctx)@, final(ctx)@),
        final(ctx).spec_had_error() == old(ctx).spec_had_error(),
        final(ctx).jumps() == old(ctx).jumps(),
        pair_fits(old(ctx)@.chunk.constants, byte1, byte2) && (old(ctx).sound() && old(ctx).live()
            ==> pair_flows(old(ctx).depth(), byte1, byte2)) ==> steady(
            *old(ctx),
            *final(ctx),
            pair_effect(byte1, byte2),
        ),
        final(ctx)@ == emit_bytes_spec(old(ctx)@, byte1, byte2),
{
    emit_byte(ctx, byte1);
    emit_byte(ctx, byte2);
    proof {
        let code = old(ctx)@.chunk.code;
        let constants = old(ctx)@.chunk.constants;
        let objects = old(ctx)@.heap.len();
        let jumps = old(ctx).jumps();
        let depths = old(ctx).depths();
        let end = code.len() as int;
        if pair_fits(constants, byte1, byte2) {
            let first = opcode_of(byte1)->0;
            if old(ctx).sound() && old(ctx).live() && pair_flows(old(ctx).depth(), byte1, byte2) {
                lemma_sound_whole(code, constants, objects, jumps, depths);
                if operand_width(first) == 1 {
                    lemma_sound_extends(
                        code,
                        constants,
                        objects,
                        jumps,
                        depths,
                        first,
                        seq![byte1, byte2],
                    );
                    assert(code + seq![byte1, byte2] =~= ctx@.chunk.code);
                } else {
                    let second = opcode_of(byte2)->0;
                    lemma_sound_extends(code, constants, objects, jumps, depths, first, seq![byte1]);
                    lemma_sound_extends(
                        code + seq![byte1],
                        constants,
                        objects,
                        jumps,
                        depths_after(depths, end, first),
                        second,
                        seq![byte2],
                    );
                    assert((code + seq![byte1]) + seq![byte2] =~= ctx@.chunk.code);
                }
            }
            ctx.depths@ = pair_depths(depths, end, byte1, byte2);
        }
    }
}

/// Adds the byte of `op` to the code.
pub fn emit_op(ctx: &mut CompilerCtx, op: OpCode)
    requires
        old(ctx).wf(),
    ensures
        final(ctx).wf(),
        continues(old(ctx)@, final(ctx)@),
        final(ctx).spec_had_error() == old(ctx).spec_had_error(),
        final(ctx).jumps() == old(ctx).jumps(),
        operand_width(op) != 0 ==> final(ctx).depths() == old(ctx).depths(),
        operand_width(op) == 0 && falls(op) && (old(ctx).sound() && old(ctx).live() ==> needs(op)
            == 0 || needs(op) <= old(ctx).depth()) ==> steady(*old(ctx), *final(ctx), effect(op)),
        final(ctx)@ == emit_op_spec(old(ctx)@, op),
{
    emit_byte(ctx, op.byte());
    proof {
        if operand_width(op) == 0 && falls(op) {
            if old(ctx).sound() && old(ctx).live() && (needs(op) == 0 || needs(op) <= old(ctx).depth()) {
                lemma_sound_whole(
                    old(ctx)@.chunk.code,
                    old(ctx)@.chunk.constants,
                    old(ctx)@.heap.len(),
                    old(ctx).jumps(),
                    old(ctx).depths(),
                );
                lemma_sound_extends(
                    old(ctx)@.chunk.code,
                    old(ctx)@.chunk.constants,
                    old(ctx)@.heap.len(),
                    old(ctx).jumps(),
                    old(ctx).depths(),
                    op,
                    seq![opcode_byte(op)],
                );
                assert(old(ctx)@.chunk.code + seq![opcode_byte(op)] =~= ctx@.chunk.code);
            }
            ctx.depths@ = depths_after(old(ctx).depths(), old(ctx)@.chunk.code.len() as int, op);
        }
    }
}

pub fn emit_return(ctx: &mut CompilerCtx)
    requires
        old(ctx).wf(),
    ensures
        final(ctx).wf(),
        continues(old(ctx)@, final(ctx)@),
        final(ctx).spec_had_error() == old(ctx).spec_had_error(),
        final(ctx).jumps() == old(ctx).jumps(),
        final(ctx).depths() == old(ctx).depths(),
        old(ctx).sound() && old(ctx).live() && old(ctx).depth() == 0 ==> final(ctx).sound(),
        final(ctx)@ == emit_op_spec(old(ctx)@, OpCode::Return),
{
    emit_byte(ctx, OpCode::Return.byte());
    proof {
        if old(ctx).sound() && old(ctx).live() && old(ctx).depth() == 0 {
            lemma_sound_extends(
                old(ctx)@.chunk.code,
                old(ctx)@.chunk.constants,
                old(ctx)@.heap.len(),
                old(ctx).jumps(),
                old(ctx).depths(),
                OpCode::Return,
                seq![opcode_byte(OpCode::Return)],
            );
            assert(old(ctx)@.chunk.code + seq![opcode_byte(OpCode::Return)] =~= ctx@.chunk.code);
        }
    }
}

pub fn make_constant(ctx: &mut CompilerCtx, value: Value) -> (result: Result<u8, CompilerError>)
    requires
        old(ctx).wf(),
    ensures
        final(ctx).wf(),
        continues(old(ctx)@, final(ctx)@),
        final(ctx).spec_had_error() == old(ctx).spec_had_error(),
        result is Ok && value_known(value, old(ctx)@.heap.len()) ==> quiet(
            *old(ctx),
            *final(ctx),
        ),
        result is Ok ==> result->Ok_0 < final(ctx)@.chunk.constants.len() && final(ctx)@.chunk.constants[result->Ok_0 as int] == value,
        match result {
            Ok(index) => make_constant_spec(old(ctx)@, value) == Ok::<
                (CtxView, u8),
                Failure,
            >((final(ctx)@, index)),
            Err(error) => make_constant_spec(old(ctx)@, value) == Err::<
                (CtxView, u8),
                Failure,
            >(failing(error@, final(ctx)@)) && final(ctx)@ == old(ctx)@,
        },
{
    match ctx.chunk.add_constant(value) {
        Some(index) => {
            proof {
                if old(ctx).sound() && value_known(value, old(ctx)@.heap.len()) {
                    lemma_sound_grows(
                        old(ctx)@.chunk.code,
                        old(ctx)@.chunk.constants,
                        old(ctx)@.heap.len(),
                        old(ctx).jumps(),
                        old(ctx).depths(),
                        ctx@.chunk.constants,
                        ctx@.heap.len(),
                    );
                }
            }
            Ok(index as u8)
        },
        None => Err(CompilerError::new("too many constants in one chunk.", ctx.current.line)),
    }
}

pub fn emit_constant(ctx: &mut CompilerCtx, value: Value) -> (result: Result<(), CompilerError>)
    requires
        old(ctx).wf(),
    ensures
        final(ctx).wf(),
        continues(old(ctx)@, final(ctx)@),
        final(ctx).spec_had_error() == old(ctx).spec_had_error(),
        result is Ok && value_known(value, old(ctx)@.heap.len()) ==> steady(
            *old(ctx),
            *final(ctx),
            1,
        ),
        agrees(result, final(ctx)@, emit_constant_spec(old(ctx)@, value)),
{
    let constant_idx = make_constant(ctx, value)?;
    emit_bytes(ctx, OpCode::AddConstant.byte(), constant_idx);
    Ok(())
}

/// Interns `text` in the heap.
fn intern(ctx: &mut CompilerCtx, text: &str) -> (handle: Handle)
    requires
        old(ctx).wf(),
    ensures
        final(ctx).wf(),
        continues(old(ctx)@, final(ctx)@),
        final(ctx).spec_had_error() == old(ctx).spec_had_error(),
        quiet(*old(ctx), *final(ctx)),
        (final(ctx)@, handle) == intern_spec(old(ctx)@, text@),
        handle.index < final(ctx)@.heap.len(),
{
    proof {
        crate::heap::lemma_intern_keeps(ctx.heap@, text@);
    }
    let handle = ctx.heap.intern(text);
    proof {
        if old(ctx).sound() {
            lemma_sound_grows(
                ctx@.chunk.code,
                ctx@.chunk.constants,
                old(ctx)@.heap.len(),
                ctx.jumps(),
                ctx.depths(),
                ctx@.chunk.constants,
                ctx@.heap.len(),
            );
        }
    }
    handle
}

pub fn identifier_constant(ctx: &mut CompilerCtx) -> (result: Result<u8, CompilerError>)
    requires
        old(ctx).wf(),
    ensures
        final(ctx).wf(),
        continues(old(ctx)@, final(ctx)@),
        final(ctx).spec_had_error() == old(ctx).spec_had_error(),
        result is Ok ==> quiet(*old(ctx), *final(ctx)) && operand_fits(
            final(ctx)@.chunk.constants,
            OpCode::DefineGlobal,
            result->Ok_0,
        ),
        match result {
            Ok(index) => identifier_constant_spec(old(ctx)@) == Ok::<
                (CtxView, u8),
                Failure,
            >((final(ctx)@, index)),
            Err(error) => identifier_constant_spec(old(ctx)@) == Err::<
                (CtxView, u8),
                Failure,
            >(failing(error@, final(ctx)@)),
        },
{
    proof {
        reveal_strlit("");
    }
    let chars = match ctx.previous.lexeme() {
        Some(text) => text,
        None => "",
    };
    assert(chars@ =~= text_of(ctx@.previous));
    let handle = intern(ctx, chars);
    make_constant(ctx, Value::String(handle))
}

pub fn emit_jump(ctx: &mut CompilerCtx, jump_op: OpCode) -> (offset: usize)
    requires
        old(ctx).wf(),
    ensures
        final(ctx).wf(),
        continues(old(ctx)@, final(ctx)@),
        final(ctx).spec_had_error() == old(ctx).spec_had_error(),
        final(ctx)@.scope_depth == old(ctx)@.scope_depth,
        final(ctx)@.locals == old(ctx)@.locals,
        (final(ctx)@, offset as int) == emit_jump_spec(old(ctx)@, jump_op),
        offset == old(ctx)@.chunk.code.len() + 1,
        offset + 2 == final(ctx)@.chunk.code.len(),
        whole(old(ctx)@.chunk.code) && (jump_op == OpCode::JumpIfFalse || jump_op == OpCode::Jump)
            ==> whole(final(ctx)@.chunk.code) && jump_at(final(ctx)@.chunk.code, offset as int),
        jump_op == OpCode::JumpIfFalse || jump_op == OpCode::Jump ==> {
            &&& final(ctx).jumps() == old(ctx).jumps().insert(offset as int, old(ctx).depth())
            &&& final(ctx).depths() == depths_after(
                old(ctx).depths(),
                old(ctx)@.chunk.code.len() as int,
                jump_op,
            )
        },
        old(ctx).sound() && old(ctx).live() && (jump_op == OpCode::Jump || (jump_op
            == OpCode::JumpIfFalse && 1 <= old(ctx).depth())) ==> {
            &&& final(ctx).sound()
            &&& !old(ctx).jumps().contains_key(offset as int)
            &&& jump_at(final(ctx)@.chunk.code, offset as int)
            &&& kept_in(old(ctx).depths(), final(ctx).depths())
            &&& final(ctx).live() == (jump_op == OpCode::JumpIfFalse)
        },
{
    emit_op(ctx, jump_op);
    emit_byte(ctx, 0xff);
    emit_byte(ctx, 0xff);
    proof {
        let code = old(ctx)@.chunk.code;
        let end = code.len() as int;
        let extra = seq![opcode_byte(jump_op), 0xffu8, 0xffu8];
        assert(code + extra =~= ctx@.chunk.code);
        if jump_op == OpCode::JumpIfFalse || jump_op == OpCode::Jump {
            if old(ctx).sound() && old(ctx).live() && (jump_op == OpCode::Jump || 1 <= old(ctx).depth()) {
                lemma_sound_whole(
                    code,
                    old(ctx)@.chunk.constants,
                    old(ctx)@.heap.len(),
                    old(ctx).jumps(),
                    old(ctx).depths(),
                );
                lemma_sound_extends(
                    code,
                    old(ctx)@.chunk.constants,
                    old(ctx)@.heap.len(),
                    old(ctx).jumps(),
                    old(ctx).depths(),
                    jump_op,
                    extra,
                );
            }
            if whole(code) {
                lemma_whole_extends(code, jump_op, extra);
            }
            ctx.jumps@ = jumps_after(old(ctx).jumps(), old(ctx).depths(), end, jump_op);
            ctx.depths@ = depths_after(old(ctx).depths(), end, jump_op);
        }
    }

    ctx.chunk.len() - 2
}

pub fn patch_jump(ctx: &mut CompilerCtx, offset: usize) -> (result: Result<(), CompilerError>)
    requires
        old(ctx).wf(),
        offset + 2 <= old(ctx)@.chunk.code.len(),
    ensures
        final(ctx).wf(),
        follows(old(ctx)@, final(ctx)@),
        kept_except(old(ctx)@.chunk.code, final(ctx)@.chunk.code, offset as int),
        final(ctx)@.chunk.code.len() == old(ctx)@.chunk.code.len(),
        final(ctx).spec_had_error() == old(ctx).spec_had_error(),
        final(ctx)@.scope_depth == old(ctx)@.scope_depth,
        agrees(result, final(ctx)@, patch_jump_spec(old(ctx)@, offset as int)),
        result is Ok <==> old(ctx)@.chunk.code.len() - offset - 2 <= MAX_JUMP,
        result is Ok ==> offset + 2 + offset_of(
            final(ctx)@.chunk.code[offset as int],
            final(ctx)@.chunk.code[offset + 1],
        ) == final(ctx)@.chunk.code.len(),
        result is Ok && whole(old(ctx)@.chunk.code) && jump_at(old(ctx)@.chunk.code, offset as int)
            ==> whole(final(ctx)@.chunk.code) && boundary(
            final(ctx)@.chunk.code,
            final(ctx)@.chunk.code.len() as int,
        ),
        final(ctx)@.locals == old(ctx)@.locals,
        result is Ok ==> {
            &&& final(ctx).jumps() == old(ctx).jumps().remove(offset as int)
            &&& final(ctx).depths() == old(ctx).depths().insert(
                old(ctx)@.chunk.code.len() as int,
                old(ctx).jumps()[offset as int],
            )
        },
        result is Err ==> final(ctx).jumps() == old(ctx).jumps() && final(ctx).depths() == old(ctx).depths(),
        result is Ok && old(ctx).sound() && jump_at(old(ctx)@.chunk.code, offset as int)
            && old(ctx).jumps().contains_key(offset as int) && (old(ctx).live() ==> old(ctx).depth()
            == old(ctx).jumps()[offset as int]) ==> final(ctx).sound() && kept_in(
            old(ctx).depths(),
            final(ctx).depths(),
        ),
        old(ctx).sound() && jump_at(old(ctx)@.chunk.code, offset as int) ==> forall|other: int| #[trigger]
            jump_at(old(ctx)@.chunk.code, other) ==> jump_at(final(ctx)@.chunk.code, other),
{
    let jump = ctx.chunk.len() - offset - 2;
    if jump > MAX_JUMP {
        return Err(CompilerError::new("too much code to jump over.", ctx.current.line));
    }
    let jump_bytes = crate::bytecode::offset_to_bytes(jump as u16);
    ctx.chunk.patch(offset, jump_bytes.0);
    ctx.chunk.patch(offset + 1, jump_bytes.1);
    proof {
        let code = old(ctx)@.chunk.code;
        if jump_at(code, offset as int) {
            if old(ctx).sound() {
                lemma_sound_whole(
                    code,
                    old(ctx)@.chunk.constants,
                    old(ctx)@.heap.len(),
                    old(ctx).jumps(),
                    old(ctx).depths(),
                );
                if old(ctx).jumps().contains_key(offset as int) && (old(ctx).live() ==> old(ctx).depth()
                    == old(ctx).jumps()[offset as int]) {
                    lemma_sound_patched(
                        code,
                        old(ctx)@.chunk.constants,
                        old(ctx)@.heap.len(),
                        old(ctx).jumps(),
                        old(ctx).depths(),
                        offset as int,
                        jump_bytes.0,
                        jump_bytes.1,
                    );
                }
                assert forall|other: int| #[trigger]
                    jump_at(code, other) implies jump_at(ctx@.chunk.code, other) by {
                    lemma_jump_at_patched(code, offset as int, jump_bytes.0, jump_bytes.1, other);
                }
            }
            if whole(code) {
                lemma_whole_patched(code, offset as int, jump_bytes.0, jump_bytes.1);
            }
        }
        ctx.depths@ = ctx.depths@.insert(code.len() as int, ctx.jumps@[offset as int]);
        ctx.jumps@ = ctx.jumps@.remove(offset as int);
    }
    Ok(())
}

pub fn emit_loop(ctx: &mut CompilerCtx, loop_start: usize) -> (result: Result<(), CompilerError>)
    requires
        old(ctx).wf(),
        loop_start <= old(ctx)@.chunk.code.len(),
    ensures
        final(ctx).wf(),
        continues(old(ctx)@, final(ctx)@),
        final(ctx).spec_had_error() == old(ctx).spec_had_error(),
        final(ctx)@.scope_depth == old(ctx)@.scope_depth,
        final(ctx)@.locals == old(ctx)@.locals,
        final(ctx).jumps() == old(ctx).jumps(),
        final(ctx).depths() == old(ctx).depths(),
        result is Ok && old(ctx).sound() && old(ctx).live() && boundary(
            old(ctx)@.chunk.code,
            loop_start as int,
        ) && old(ctx).depths().contains_key(loop_start as int) && old(ctx).depths()[loop_start as int]
            == old(ctx).depth() ==> final(ctx).sound() && !final(ctx).live(),
        agrees(result, final(ctx)@, emit_loop_spec(old(ctx)@, loop_start as int)),
{
    let distance = ctx.chunk.len() - loop_start;
    if distance > MAX_JUMP - 3 {
        return Err(CompilerError::new("loop body too large.", ctx.current.line));
    }
    emit_op(ctx, OpCode::Loop);

    let offset = distance + 3;
    let offset_bytes = crate::bytecode::offset_to_bytes(offset as u16);

    emit_byte(ctx, offset_bytes.0);
    emit_byte(ctx, offset_bytes.1);
    proof {
        let code = old(ctx)@.chunk.code;
        let extra = seq![opcode_byte(OpCode::Loop), offset_bytes.0, offset_bytes.1];
        assert(code + extra =~= ctx@.chunk.code);
        if old(ctx).sound() && old(ctx).live() && boundary(code, loop_start as int)
            && old(ctx).depths().contains_key(loop_start as int) && old(ctx).depths()[loop_start as int]
            == old(ctx).depth() {
            lemma_sound_whole(
                code,
                old(ctx)@.chunk.constants,
                old(ctx)@.heap.len(),
                old(ctx).jumps(),
                old(ctx).depths(),
            );
            lemma_sound_extends(
                code,
                old(ctx)@.chunk.constants,
                old(ctx)@.heap.len(),
                old(ctx).jumps(),
                old(ctx).depths(),
                OpCode::Loop,
                extra,
            );
        }
    }
    Ok(())
}

/// The slot of the innermost local with the name of `name`, or -1 where no
/// local has it.
pub fn resolve_local(ctx: &CompilerCtx, name: &Token) -> (result: Result<isize, CompilerError>)
    requires
        ctx.wf(),
    ensures
        match resolve_local_spec(ctx@.locals, text_of(name@), ctx@.locals.len() as int) {
            Resolved::Local(slot) => result == Ok::<isize, CompilerError>(slot as isize) && 0
                <= slot < base(ctx@.locals),
            Resolved::Global => result == Ok::<isize, CompilerError>(-1isize),
            Resolved::Uninitialized => result is Err && result->Err_0@ == error_at(
                ctx@,
                msg_own_initializer(),
            ),
        },
{
    let mut index = ctx.locals.len();
    while index > 0
        invariant
            ctx.wf(),
            index <= ctx.locals@.len(),
            resolve_local_spec(ctx@.locals, text_of(name@), index as int) == resolve_local_spec(
                ctx@.locals,
                text_of(name@),
                ctx@.locals.len() as int,
            ),
        decreases index,
    {
        let local = ctx.locals.index(index - 1);
        assert(ctx@.locals[index - 1] == local@);
        if same_name(name, &local.name) {
            if local.depth == -1 {
                return Err(
                    CompilerError::new(
                        "can't read local variable in its own initializer.",
                        ctx.current.line,
                    ),
                );
            }
            return Ok((index - 1) as isize);
        }
        index -= 1;
    }
    Ok(-1)
}

pub fn add_local<'ctx>(ctx: &mut CompilerCtx<'ctx>, name: Token<'ctx>) -> (result: Result<
    (),
    CompilerError,
>)
    requires
        old(ctx).wf(),
    ensures
        final(ctx).wf(),
        continues(old(ctx)@, final(ctx)@),
        final(ctx).spec_had_error() == old(ctx).spec_had_error(),
        result is Ok ==> still(*old(ctx), *final(ctx)),
        final(ctx)@.scope_depth == old(ctx)@.scope_depth,
        result is Ok ==> final(ctx)@.locals == old(ctx)@.locals.push(
            LocalView { name: text_of(name@), depth: -1 },
        ),
        agrees(result, final(ctx)@, add_local_spec(old(ctx)@, name@)),
        result is Err <==> old(ctx)@.locals.len() >= MAX_LOCALS,
        result is Err ==> final(ctx)@ == old(ctx)@,
{
    if ctx.locals.len() >= MAX_LOCALS {
        return Err(CompilerError::new("too many variables in function.", ctx.current.line));
    }
    let local = Local::new(name, -1);
    ctx.locals.push(local);
    assert(ctx@.locals =~= old(ctx)@.locals.push(LocalView { name: text_of(name@), depth: -1 }));
    Ok(())
}

pub fn declare_variable(ctx: &mut CompilerCtx) -> (result: Result<(), CompilerError>)
    requires
        old(ctx).wf(),
    ensures
        final(ctx).wf(),
        continues(old(ctx)@, final(ctx)@),
        final(ctx).spec_had_error() == old(ctx).spec_had_error(),
        result is Ok ==> still(*old(ctx), *final(ctx)),
        final(ctx)@.scope_depth == old(ctx)@.scope_depth,
        result is Ok ==> final(ctx)@.locals == if old(ctx)@.scope_depth == 0 {
            old(ctx)@.locals
        } else {
            old(ctx)@.locals.push(LocalView { name: text_of(old(ctx)@.previous), depth: -1 })
        },
        agrees(result, final(ctx)@, declare_variable_spec(old(ctx)@)),
{
    if ctx.scope_depth == 0 {
        return Ok(());
    }
    let name = ctx.previous;
    let mut index = ctx.locals.len();
    let mut searching = true;
    while searching && index > 0
        invariant
            ctx.wf(),
            ctx@ == old(ctx)@,
            ctx.jumps() == old(ctx).jumps(),
            ctx.depths() == old(ctx).depths(),
            ctx.spec_had_error() == old(ctx).spec_had_error(),
            ctx@.scope_depth != 0,
            name == ctx.previous,
            index <= ctx.locals@.len(),
            searching ==> declared_in_scope(
                ctx@.locals,
                text_of(name@),
                ctx@.scope_depth,
                index as int,
            ) == declared_in_scope(
                ctx@.locals,
                text_of(name@),
                ctx@.scope_depth,
                ctx@.locals.len() as int,
            ),
            !searching ==> !declared_in_scope(
                ctx@.locals,
                text_of(name@),
                ctx@.scope_depth,
                ctx@.locals.len() as int,
            ),
        decreases index + if searching { 1int } else { 0int },
    {
        let local = ctx.locals.index(index - 1);
        assert(ctx@.locals[index - 1] == local@);
        if local.depth != -1 && local.depth < ctx.scope_depth {
            searching = false;
        } else {
            if same_name(&name, &local.name) {
                assert(declared_in_scope(
                    ctx@.locals,
                    text_of(name@),
                    ctx@.scope_depth,
                    index as int,
                ));
                return Err(
                    CompilerError::new(
                        "already a variable with this name in this scope.",
                        ctx.current.line,
                    ),
                );
            }
            index -= 1;
        }
    }
    add_local(ctx, name)
}

pub fn make_initialized(ctx: &mut CompilerCtx)
    requires
        old(ctx).wf(),
    ensures
        final(ctx).wf(),
        continues(old(ctx)@, final(ctx)@),
        final(ctx).spec_had_error() == old(ctx).spec_had_error(),
        still(*old(ctx), *final(ctx)),
        final(ctx)@.scope_depth == old(ctx)@.scope_depth,
        final(ctx)@ == make_initialized_spec(old(ctx)@),
{
    let count = ctx.locals.len();
    if count == 0 {
        return ;
    }
    let local = *ctx.locals.index(count - 1);
    assert(old(ctx)@.locals[count - 1] == local@);
    ctx.locals.set(count - 1, Local { name: local.name, depth: ctx.scope_depth });
    assert(ctx@.locals =~= make_initialized_spec(old(ctx)@).locals);
}

pub fn define_variable(ctx: &mut CompilerCtx, global_index: u8)
    requires
        old(ctx).wf(),
    ensures
        final(ctx).wf(),
        continues(old(ctx)@, final(ctx)@),
        final(ctx).spec_had_error() == old(ctx).spec_had_error(),
        final(ctx)@.scope_depth == old(ctx)@.scope_depth,
        old(ctx)@.scope_depth > 0 ==> still(*old(ctx), *final(ctx)),
        old(ctx)@.scope_depth == 0 && operand_fits(
            old(ctx)@.chunk.constants,
            OpCode::DefineGlobal,
            global_index,
        ) && (old(ctx).sound() && old(ctx).live() ==> old(ctx).depth() >= 1) ==> steady(
            *old(ctx),
            *final(ctx),
            -1,
        ),
        final(ctx)@ == define_variable_spec(old(ctx)@, global_index),
{
    if ctx.scope_depth > 0 {
        make_initialized(ctx);
        return ;
    }
    emit_bytes(ctx, OpCode::DefineGlobal.byte(), global_index);
}

pub fn parse_variable(ctx: &mut CompilerCtx, error_msg: &str) -> (result: Result<u8, CompilerError>)
    requires
        old(ctx).wf(),
    ensures
        final(ctx).wf(),
        continues(old(ctx)@, final(ctx)@),
        final(ctx).spec_had_error() == old(ctx).spec_had_error(),
        result is Ok ==> final(ctx)@.scope_depth == old(ctx)@.scope_depth,
        result is Ok ==> still(*old(ctx), *final(ctx)) && (final(ctx)@.scope_depth == 0
            ==> operand_fits(final(ctx)@.chunk.constants, OpCode::DefineGlobal, result->Ok_0)),
        result is Ok ==> final(ctx)@.locals == if old(ctx)@.scope_depth == 0 {
            old(ctx)@.locals
        } else {
            old(ctx)@.locals.push(LocalView { name: text_of(final(ctx)@.previous), depth: -1 })
        },
        match result {
            Ok(index) => parse_variable_spec(old(ctx)@, error_msg@) == Ok::<
                (CtxView, u8),
                Failure,
            >((final(ctx)@, index)),
            Err(error) => parse_variable_spec(old(ctx)@, error_msg@) == Err::<
                (CtxView, u8),
                Failure,
            >(failing(error@, final(ctx)@)),
        },
{
    consume(ctx, TokenKind::Identifier, error_msg)?;

    declare_variable(ctx)?;
    if ctx.scope_depth > 0 {
        return Ok(0);
    }
    identifier_constant(ctx)
}

pub fn begin_scope(ctx: &mut CompilerCtx) -> (result: Result<(), CompilerError>)
    requires
        old(ctx).wf(),
    ensures
        final(ctx).wf(),
        continues(old(ctx)@, final(ctx)@),
        final(ctx).spec_had_error() == old(ctx).spec_had_error(),
        result is Ok ==> final(ctx)@.scope_depth == old(ctx)@.scope_depth + 1 && still(
            *old(ctx),
            *final(ctx),
        ) && final(ctx)@.locals == old(ctx)@.locals,
        agrees(result, final(ctx)@, begin_scope_spec(old(ctx)@)),
        result is Ok ==> final(ctx)@.scope_depth > 0,
{
    if ctx.scope_depth == isize::MAX {
        return Err(CompilerError::new("too many nested blocks.", ctx.current.line));
    }
    ctx.scope_depth += 1;
    Ok(())
}

pub fn end_scope(ctx: &mut CompilerCtx)
    requires
        old(ctx).wf(),
    ensures
        final(ctx).wf(),
        continues(old(ctx)@, final(ctx)@),
        final(ctx).spec_had_error() == old(ctx).spec_had_error(),
        final(ctx)@.scope_depth == if old(ctx)@.scope_depth > 0 {
            old(ctx)@.scope_depth - 1
        } else {
            old(ctx)@.scope_depth
        },
        final(ctx)@.locals.len() <= old(ctx)@.locals.len(),
        forall|i: int| 0 <= i < final(ctx)@.locals.len() ==> final(ctx)@.locals[i] == old(ctx)@.locals[i],
        forall|i: int|
            final(ctx)@.locals.len() <= i < old(ctx)@.locals.len() ==> (#[trigger] old(ctx)@.locals[i]).depth
                > final(ctx)@.scope_depth,
        final(ctx)@.locals.len() > 0 ==> final(ctx)@.locals.last().depth <= final(ctx)@.scope_depth,
        settled(*old(ctx)) && old(ctx)@.scope_depth > 0 ==> settled(*final(ctx)) && calm(
            *old(ctx),
            *final(ctx),
            final(ctx)@.locals.len() - old(ctx)@.locals.len(),
        ),
        final(ctx)@ == end_scope_spec(old(ctx)@),
{
    if ctx.scope_depth > 0 {
        ctx.scope_depth -= 1;
    }
    let ghost start = ctx@;
    loop
        invariant
            ctx.wf(),
            continues(old(ctx)@, ctx@),
            ctx@.scope_depth == start.scope_depth,
            start.scope_depth == if old(ctx)@.scope_depth > 0 {
                old(ctx)@.scope_depth - 1
            } else {
                old(ctx)@.scope_depth
            },
            ctx@.locals.len() <= old(ctx)@.locals.len(),
            forall|i: int| 0 <= i < ctx@.locals.len() ==> ctx@.locals[i] == old(ctx)@.locals[i],
            forall|i: int|
                ctx@.locals.len() <= i < old(ctx)@.locals.len() ==> (#[trigger] old(ctx)@.locals[i]).depth
                    > ctx@.scope_depth,
            settled(*old(ctx)) && old(ctx)@.scope_depth > 0 ==> calm(
                *old(ctx),
                *ctx,
                ctx@.locals.len() - old(ctx)@.locals.len(),
            ) && ctx.depth() == ctx@.locals.len(),
            ctx.spec_had_error() == old(ctx).spec_had_error(),
            pop_locals_spec(ctx@) == pop_locals_spec(start),
            pop_locals_spec(start) == end_scope_spec(old(ctx)@),
        decreases ctx@.locals.len(),
    {
        let count = ctx.locals.len();
        if count == 0 {
            assert(pop_locals_spec(ctx@) == ctx@);
            return ;
        }
        let depth = ctx.locals.index(count - 1).depth;
        assert(ctx@.locals[count - 1].depth == depth);
        if depth <= ctx.scope_depth {
            assert(pop_locals_spec(ctx@) == ctx@);
            return ;
        }
        let ghost before = ctx@;
        let ghost prior = *ctx;
        emit_op(ctx, OpCode::Pop);
        let ghost emitted = *ctx;
        ctx.locals.pop();
        assert(ctx@.locals =~= before.locals.drop_last());
        assert(old(ctx)@.locals[count - 1] == before.locals[count - 1]);
        proof {
            if settled(*old(ctx)) && old(ctx)@.scope_depth > 0 && old(ctx).sound() && old(ctx).live() {
                assert(steady(prior, emitted, -1));
                assert(ctx.sound() == emitted.sound());
            }
        }
        assert(ctx@ == (CtxView {
            locals: before.locals.drop_last(),
            ..emit_op_spec(before, OpCode::Pop)
        }));
    }
}

pub fn number(ctx: &mut CompilerCtx, can_assign: bool) -> (result: Result<(), CompilerError>)
    requires
        old(ctx).wf(),
    ensures
        final(ctx).wf(),
        continues(old(ctx)@, final(ctx)@),
        final(ctx).spec_had_error() == old(ctx).spec_had_error(),
        result is Ok ==> steady(*old(ctx), *final(ctx), 1),
        agrees(result, final(ctx)@, number_spec(old(ctx)@)),
{
    match ctx.previous_number {
        Some(bits) => emit_constant(ctx, Value::Number(bits)),
        None => Err(CompilerError::new("number literal without a value.", ctx.current.line)),
    }
}

pub fn string(ctx: &mut CompilerCtx, can_assign: bool) -> (result: Result<(), CompilerError>)
    requires
        old(ctx).wf(),
    ensures
        final(ctx).wf(),
        continues(old(ctx)@, final(ctx)@),
        final(ctx).spec_had_error() == old(ctx).spec_had_error(),
        result is Ok ==> steady(*old(ctx), *final(ctx), 1),
        agrees(result, final(ctx)@, string_spec(old(ctx)@)),
{
    proof {
        reveal_strlit("");
    }
    let chars = match ctx.previous.lexeme() {
        Some(lexeme) => {
            let length = lexeme.unicode_len();
            if length >= 2 {
                lexeme.substring_char(1, length - 1)
            } else {
                ""
            }
        },
        None => "",
    };
    assert(chars@ =~= string_body(text_of(ctx@.previous)));
    let handle = intern(ctx, chars);
    emit_constant(ctx, Value::String(handle))
}

pub fn literal(ctx: &mut CompilerCtx, can_assign: bool)
    requires
        old(ctx).wf(),
    ensures
        final(ctx).wf(),
        continues(old(ctx)@, final(ctx)@),
        final(ctx).spec_had_error() == old(ctx).spec_had_error(),
        steady(*old(ctx), *final(ctx), rule_effect(ParseFn::Literal, old(ctx)@.previous.kind)),
        final(ctx)@ == literal_spec(old(ctx)@),
{
    match ctx.previous.kind {
        TokenKind::False => emit_op(ctx, OpCode::AddFalse),
        TokenKind::Nil => emit_op(ctx, OpCode::AddNil),
        TokenKind::True => emit_op(ctx, OpCode::AddTrue),
        _ => {},
    }
}

/// Adds the code of the binary operator `operator`.
fn binary_operator(ctx: &mut CompilerCtx, operator: TokenKind)
    requires
        old(ctx).wf(),
    ensures
        final(ctx).wf(),
        continues(old(ctx)@, final(ctx)@),
        final(ctx).spec_had_error() == old(ctx).spec_had_error(),
        (old(ctx).sound() && old(ctx).live() ==> old(ctx).depth() >= 2) ==> steady(
            *old(ctx),
            *final(ctx),
            if is_binary_operator(operator) {
                -1
            } else {
                0
            },
        ),
        final(ctx)@ == binary_operator_spec(old(ctx)@, operator),
{
    match operator {
        TokenKind::BangEqual => emit_bytes(ctx, OpCode::Equal.byte(), OpCode::Not.byte()),
        TokenKind::EqualEqual => emit_op(ctx, OpCode::Equal),
        TokenKind::Greater => emit_op(ctx, OpCode::Greater),
        TokenKind::GreaterEqual => emit_bytes(ctx, OpCode::Less.byte(), OpCode::Not.byte()),
        TokenKind::Less => emit_op(ctx, OpCode::Less),
        TokenKind::LessEqual => emit_bytes(ctx, OpCode::Greater.byte(), OpCode::Not.byte()),
        TokenKind::Plus => emit_op(ctx, OpCode::Add),
        TokenKind::Minus => emit_op(ctx, OpCode::Substract),
        TokenKind::Star => emit_op(ctx, OpCode::Multiply),
        TokenKind::Slash => emit_op(ctx, OpCode::Divide),
        _ => (),
    };
}

/// Adds the code of the unary operator `operator`.
fn unary_operator(ctx: &mut CompilerCtx, operator: TokenKind)
    requires
        old(ctx).wf(),
    ensures
        final(ctx).wf(),
        continues(old(ctx)@, final(ctx)@),
        final(ctx).spec_had_error() == old(ctx).spec_had_error(),
        (old(ctx).sound() && old(ctx).live() ==> old(ctx).depth() >= 1) ==> steady(
            *old(ctx),
            *final(ctx),
            0,
        ),
        final(ctx)@ == unary_operator_spec(old(ctx)@, operator),
{
    match operator {
        TokenKind::Bang => emit_op(ctx, OpCode::Not),
        TokenKind::Minus => emit_op(ctx, OpCode::Negate),
        _ => {},
    }
}

/// Where the current token is not `Eof`, the step brought the end nearer.
pub open spec fn progresses(before: CtxView, after: CtxView) -> bool {
    before.current.kind != TokenKind::Eof ==> measure(after) < measure(before)
}

/// Reads or writes a variable by the operations `get_op` and `set_op` with
/// the operand `arg`.
fn access(ctx: &mut CompilerCtx, get_op: OpCode, set_op: OpCode, arg: u8, can_assign: bool) -> (result:
    Result<(), CompilerError>)
    requires
        old(ctx).wf(),
        (get_op == OpCode::GetGlobal && set_op == OpCode::SetGlobal) || (get_op == OpCode::GetLocal
            && set_op == OpCode::SetLocal),
    ensures
        final(ctx).wf(),
        continues(old(ctx)@, final(ctx)@),
        final(ctx).spec_had_error() == old(ctx).spec_had_error(),
        result is Ok && operand_fits(old(ctx)@.chunk.constants, get_op, arg) && operand_fits(
            old(ctx)@.chunk.constants,
            set_op,
            arg,
        ) && fits(*old(ctx)) && (get_op == OpCode::GetLocal ==> arg < base(old(ctx)@.locals))
            ==> steady(*old(ctx), *final(ctx), 1),
        agrees(result, final(ctx)@, access_spec(old(ctx)@, get_op, set_op, arg, can_assign)),
    decreases measure(old(ctx)@), 60int,
{
    proof {
        assert(opcode_of(opcode_byte(set_op)) == Some(set_op));
        assert(opcode_of(opcode_byte(get_op)) == Some(get_op));
    }
    if can_assign && matches(ctx, TokenKind::Equal)? {
        expression(ctx)?;
        let ghost valued = *ctx;
        emit_bytes(ctx, set_op.byte(), arg);
        proof {
            if fits(*old(ctx)) && operand_fits(old(ctx)@.chunk.constants, set_op, arg) && (get_op
                == OpCode::GetLocal ==> arg < base(old(ctx)@.locals)) {
                assert(steady(*old(ctx), valued, 1));
                assert(pair_flows(valued.depth(), opcode_byte(set_op), arg));
                assert(pair_effect(opcode_byte(set_op), arg) == 0);
                assert(steady(valued, *ctx, 0));
            }
        }
    } else {
        emit_bytes(ctx, get_op.byte(), arg);
        proof {
            if fits(*old(ctx)) && operand_fits(old(ctx)@.chunk.constants, get_op, arg) && (get_op
                == OpCode::GetLocal ==> arg < base(old(ctx)@.locals)) {
                assert(pair_effect(opcode_byte(get_op), arg) == 1);
            }
        }
    }
    Ok(())
}

pub fn named_variable(ctx: &mut CompilerCtx, name: Token, can_assign: bool) -> (result: Result<
    (),
    CompilerError,
>)
    requires
        old(ctx).wf(),
    ensures
        final(ctx).wf(),
        continues(old(ctx)@, final(ctx)@),
        final(ctx).spec_had_error() == old(ctx).spec_had_error(),
        result is Ok && fits(*old(ctx)) ==> steady(*old(ctx), *final(ctx), 1),
        agrees(result, final(ctx)@, named_variable_spec(old(ctx)@, name@, can_assign)),
    decreases measure(old(ctx)@), 65int,
{
    let slot = resolve_local(ctx, &name)?;

    if slot == -1 {
        let index = identifier_constant(ctx)?;
        access(ctx, OpCode::GetGlobal, OpCode::SetGlobal, index, can_assign)
    } else {
        access(ctx, OpCode::GetLocal, OpCode::SetLocal, slot as u8, can_assign)
    }
}

pub fn variable(ctx: &mut CompilerCtx, can_assign: bool) -> (result: Result<(), CompilerError>)
    requires
        old(ctx).wf(),
    ensures
        final(ctx).wf(),
        continues(old(ctx)@, final(ctx)@),
        final(ctx).spec_had_error() == old(ctx).spec_had_error(),
        result is Ok && fits(*old(ctx)) ==> steady(*old(ctx), *final(ctx), 1),
        agrees(
            result,
            final(ctx)@,
            named_variable_spec(old(ctx)@, old(ctx)@.previous, can_assign),
        ),
    decreases measure(old(ctx)@), 67int,
{
    let name = ctx.previous;
    named_variable(ctx, name, can_assign)
}

pub fn grouping(ctx: &mut CompilerCtx, can_assign: bool) -> (result: Result<(), CompilerError>)
    requires
        old(ctx).wf(),
    ensures
        final(ctx).wf(),
        continues(old(ctx)@, final(ctx)@),
        final(ctx).spec_had_error() == old(ctx).spec_had_error(),
        result is Ok && fits(*old(ctx)) ==> steady(*old(ctx), *final(ctx), 1),
        agrees(result, final(ctx)@, grouping_spec(old(ctx)@)),
    decreases measure(old(ctx)@), 60int,
{
    expression(ctx)?;

    consume(ctx, TokenKind::RightParen, "expect ')' after expression.")
}

pub fn unary(ctx: &mut CompilerCtx, can_assign: bool) -> (result: Result<(), CompilerError>)
    requires
        old(ctx).wf(),
    ensures
        final(ctx).wf(),
        continues(old(ctx)@, final(ctx)@),
        final(ctx).spec_had_error() == old(ctx).spec_had_error(),
        result is Ok && fits(*old(ctx)) ==> steady(*old(ctx), *final(ctx), 1),
        agrees(result, final(ctx)@, unary_spec(old(ctx)@)),
    decreases measure(old(ctx)@), 60int,
{
    let token_kind = ctx.previous.kind;

    parse_precedence(ctx, Precedence::Unary)?;

    unary_operator(ctx, token_kind);
    Ok(())
}

pub fn binary(ctx: &mut CompilerCtx, can_assign: bool) -> (result: Result<(), CompilerError>)
    requires
        old(ctx).wf(),
    ensures
        final(ctx).wf(),
        continues(old(ctx)@, final(ctx)@),
        final(ctx).spec_had_error() == old(ctx).spec_had_error(),
        result is Ok && above(*old(ctx)) ==> steady(
            *old(ctx),
            *final(ctx),
            rule_effect(ParseFn::Binary, old(ctx)@.previous.kind),
        ),
        agrees(result, final(ctx)@, binary_spec(old(ctx)@)),
    decreases measure(old(ctx)@), 60int,
{
    let previous_token = ctx.previous;
    let rule = get_parse_rule(previous_token.kind);

    parse_precedence(ctx, rule.precedence().higher())?;

    binary_operator(ctx, previous_token.kind);
    Ok(())
}

pub fn and_(ctx: &mut CompilerCtx, can_assign: bool) -> (result: Result<(), CompilerError>)
    requires
        old(ctx).wf(),
    ensures
        final(ctx).wf(),
        continues(old(ctx)@, final(ctx)@),
        final(ctx).spec_had_error() == old(ctx).spec_had_error(),
        result is Ok && above(*old(ctx)) ==> steady(*old(ctx), *final(ctx), 0),
        agrees(result, final(ctx)@, and_spec(old(ctx)@)),
    decreases measure(old(ctx)@), 60int,
{
    let end_jump = emit_jump(ctx, OpCode::JumpIfFalse);
    let ghost jumping = *ctx;
    emit_op(ctx, OpCode::Pop);
    let ghost popped = *ctx;

    parse_precedence(ctx, Precedence::And)?;
    proof {
        if above(*old(ctx)) {
            assert(fits(popped));
            lemma_jump_at_kept(jumping@.chunk.code, ctx@.chunk.code, end_jump as int);
        }
    }
    let result = patch_jump(ctx, end_jump);
    proof {
        if above(*old(ctx)) && result is Ok {
            assert(ctx.jumps() =~= old(ctx).jumps());
        }
    }
    result
}

#[verifier::rlimit(50)]
pub fn or_(ctx: &mut CompilerCtx, can_assign: bool) -> (result: Result<(), CompilerError>)
    requires
        old(ctx).wf(),
    ensures
        final(ctx).wf(),
        continues(old(ctx)@, final(ctx)@),
        final(ctx).spec_had_error() == old(ctx).spec_had_error(),
        result is Ok && above(*old(ctx)) ==> steady(*old(ctx), *final(ctx), 0),
        agrees(result, final(ctx)@, or_spec(old(ctx)@)),
    decreases measure(old(ctx)@), 60int,
{
    let else_jump = emit_jump(ctx, OpCode::JumpIfFalse);
    let ghost first = *ctx;
    let end_jump = emit_jump(ctx, OpCode::Jump);
    proof {
        if above(*old(ctx)) {
            lemma_jump_at_kept(first@.chunk.code, ctx@.chunk.code, else_jump as int);
        }
    }

    patch_jump(ctx, else_jump)?;
    let ghost patched = *ctx;
    emit_op(ctx, OpCode::Pop);
    let ghost popped = *ctx;

    parse_precedence(ctx, Precedence::Or)?;
    proof {
        if above(*old(ctx)) {
            assert(fits(popped));
            lemma_jump_at_kept(patched@.chunk.code, ctx@.chunk.code, end_jump as int);
        }
    }
    let result = patch_jump(ctx, end_jump);
    proof {
        if above(*old(ctx)) && result is Ok {
            assert(ctx.jumps() =~= old(ctx).jumps());
        }
    }
    result
}

/// Runs the parsing function `parse_fn`.
pub fn run_rule(ctx: &mut CompilerCtx, parse_fn: ParseFn, can_assign: bool) -> (result: Result<
    (),
    CompilerError,
>)
    requires
        old(ctx).wf(),
    ensures
        final(ctx).wf(),
        continues(old(ctx)@, final(ctx)@),
        final(ctx).spec_had_error() == old(ctx).spec_had_error(),
        result is Ok && (if is_infix(parse_fn) {
            above(*old(ctx))
        } else {
            fits(*old(ctx))
        }) ==> steady(*old(ctx), *final(ctx), rule_effect(parse_fn, old(ctx)@.previous.kind)),
        agrees(result, final(ctx)@, rule_spec(old(ctx)@, parse_fn, can_assign)),
    decreases measure(old(ctx)@), 70int,
{
    match parse_fn {
        ParseFn::Grouping => grouping(ctx, can_assign),
        ParseFn::Unary => unary(ctx, can_assign),
        ParseFn::Binary => binary(ctx, can_assign),
        ParseFn::Variable => variable(ctx, can_assign),
        ParseFn::String => string(ctx, can_assign),
        ParseFn::Number => number(ctx, can_assign),
        ParseFn::Literal => {
            literal(ctx, can_assign);
            Ok(())
        },
        ParseFn::And => and_(ctx, can_assign),
        ParseFn::Or => or_(ctx, can_assign),
    }
}

pub fn parse_precedence(ctx: &mut CompilerCtx, precedence: Precedence) -> (result: Result<
    (),
    CompilerError,
>)
    requires
        old(ctx).wf(),
    ensures
        final(ctx).wf(),
        continues(old(ctx)@, final(ctx)@),
        progresses(old(ctx)@, final(ctx)@),
        final(ctx).spec_had_error() == old(ctx).spec_had_error(),
        result is Ok && fits(*old(ctx)) ==> steady(*old(ctx), *final(ctx), 1),
        agrees(result, final(ctx)@, parse_precedence_spec(old(ctx)@, precedence)),
    decreases measure(old(ctx)@), 40int,
{
    advance(ctx)?;

    let can_assign = precedence.level() <= Precedence::Assignment.level();
    let parse_rule = get_parse_rule(ctx.previous.kind);
    proof {
        lemma_rule_effects(ctx@.previous.kind);
    }
    match parse_rule.prefix() {
        Some(prefix_fn) => {
            run_rule(ctx, prefix_fn, can_assign)?;
        },
        None => {
            return Err(CompilerError::new("expect expression.", ctx.current.line));
        },
    }

    while precedence.level() != 0 && precedence.level() <= get_parse_rule(
        ctx.current.kind,
    ).precedence().level()
        invariant
            ctx.wf(),
            continues(old(ctx)@, ctx@),
            fits(*old(ctx)) ==> steady(*old(ctx), *ctx, 1),
            measure(ctx@) < measure(old(ctx)@),
            ctx.spec_had_error() == old(ctx).spec_had_error(),
            can_assign == can_assign_at(precedence),
            parse_precedence_spec(old(ctx)@, precedence) == after_operators_spec(
                infix_loop_spec(ctx@, precedence, can_assign),
                can_assign,
            ),
        decreases measure(ctx@),
    {
        advance(ctx)?;

        let parse_rule = get_parse_rule(ctx.previous.kind);
        proof {
            lemma_rule_effects(ctx@.previous.kind);
        }
        if let Some(infix_fn) = parse_rule.infix() {
            run_rule(ctx, infix_fn, can_assign)?;
        }
    }

    if can_assign && matches(ctx, TokenKind::Equal)? {
        return Err(CompilerError::new("invalid assignment target.", ctx.current.line));
    }
    Ok(())
}

pub fn expression(ctx: &mut CompilerCtx) -> (result: Result<(), CompilerError>)
    requires
        old(ctx).wf(),
    ensures
        final(ctx).wf(),
        continues(old(ctx)@, final(ctx)@),
        progresses(old(ctx)@, final(ctx)@),
        final(ctx).spec_had_error() == old(ctx).spec_had_error(),
        result is Ok && fits(*old(ctx)) ==> steady(*old(ctx), *final(ctx), 1),
        agrees(result, final(ctx)@, expression_spec(old(ctx)@)),
    decreases measure(old(ctx)@), 50int,
{
    parse_precedence(ctx, Precedence::Assignment)
}

pub fn expression_statement(ctx: &mut CompilerCtx) -> (result: Result<(), CompilerError>)
    requires
        old(ctx).wf(),
    ensures
        final(ctx).wf(),
        continues(old(ctx)@, final(ctx)@),
        progresses(old(ctx)@, final(ctx)@),
        final(ctx).spec_had_error() == old(ctx).spec_had_error(),
        result is Ok && fits(*old(ctx)) ==> steady(*old(ctx), *final(ctx), 0),
        agrees(result, final(ctx)@, expression_statement_spec(old(ctx)@)),
    decreases measure(old(ctx)@), 75int,
{
    expression(ctx)?;
    consume(ctx, TokenKind::Semicolon, "expect ';' after expression.")?;
    emit_op(ctx, OpCode::Pop);
    Ok(())
}

pub fn print_statement(ctx: &mut CompilerCtx) -> (result: Result<(), CompilerError>)
    requires
        old(ctx).wf(),
    ensures
        final(ctx).wf(),
        continues(old(ctx)@, final(ctx)@),
        final(ctx).spec_had_error() == old(ctx).spec_had_error(),
        result is Ok && fits(*old(ctx)) ==> steady(*old(ctx), *final(ctx), 0),
        agrees(result, final(ctx)@, print_statement_spec(old(ctx)@)),
    decreases measure(old(ctx)@), 75int,
{
    expression(ctx)?;
    consume(ctx, TokenKind::Semicolon, "expect ';' after value.")?;
    emit_op(ctx, OpCode::Print);
    Ok(())
}

/// Compiles the condition of an `if` or `while` statement and the jump that
/// is taken where it is falsey. Hands out the place of the jump's offset.
fn condition(ctx: &mut CompilerCtx, open_msg: &str) -> (result: Result<usize, CompilerError>)
    requires
        old(ctx).wf(),
    ensures
        final(ctx).wf(),
        continues(old(ctx)@, final(ctx)@),
        final(ctx).spec_had_error() == old(ctx).spec_had_error(),
        match result {
            Ok(jump) => {
                &&& condition_spec(old(ctx)@, open_msg@) == Ok::<(CtxView, int), Failure>(
                    (final(ctx)@, jump as int),
                )
                &&& old(ctx)@.chunk.code.len() <= jump
                &&& jump + 2 <= final(ctx)@.chunk.code.len()
                &&& fits(*old(ctx)) ==> {
                    &&& final(ctx)@.scope_depth == old(ctx)@.scope_depth
                    &&& final(ctx)@.locals == old(ctx)@.locals
                    &&& final(ctx).sound()
                    &&& final(ctx).live()
                    &&& final(ctx).depth() == old(ctx).depth()
                    &&& final(ctx).jumps() == old(ctx).jumps().insert(
                        jump as int,
                        old(ctx).depth() + 1,
                    )
                    &&& !old(ctx).jumps().contains_key(jump as int)
                    &&& jump_at(final(ctx)@.chunk.code, jump as int)
                    &&& kept_in(old(ctx).depths(), final(ctx).depths())
                }
            },
            Err(error) => condition_spec(old(ctx)@, open_msg@) == Err::<
                (CtxView, int),
                Failure,
            >(failing(error@, final(ctx)@)),
        },
    decreases measure(old(ctx)@), 118int,
{
    consume(ctx, TokenKind::LeftParen, open_msg)?;
    expression(ctx)?;
    consume(ctx, TokenKind::RightParen, "expect ')' after condition.")?;

    let jump = emit_jump(ctx, OpCode::JumpIfFalse);
    let ghost jumping = *ctx;
    emit_op(ctx, OpCode::Pop);
    proof {
        if fits(*old(ctx)) {
            lemma_jump_at_kept(jumping@.chunk.code, ctx@.chunk.code, jump as int);
        }
    }
    Ok(jump)
}

/// Ends the `then` branch of an `if` statement. Hands out the place of the
/// offset of the jump over the `else` branch.
#[verifier::rlimit(50)]
fn then_end(ctx: &mut CompilerCtx, then_jump: usize) -> (result: Result<usize, CompilerError>)
    requires
        old(ctx).wf(),
        then_jump + 2 <= old(ctx)@.chunk.code.len(),
    ensures
        final(ctx).wf(),
        follows(old(ctx)@, final(ctx)@),
        kept_except(old(ctx)@.chunk.code, final(ctx)@.chunk.code, then_jump as int),
        final(ctx).spec_had_error() == old(ctx).spec_had_error(),
        match result {
            Ok(jump) => {
                &&& then_end_spec(old(ctx)@, then_jump as int) == Ok::<
                    (CtxView, int),
                    Failure,
                >((final(ctx)@, jump as int))
                &&& old(ctx)@.chunk.code.len() <= jump
                &&& jump + 2 <= final(ctx)@.chunk.code.len()
                &&& final(ctx)@.scope_depth == old(ctx)@.scope_depth
                &&& final(ctx)@.locals == old(ctx)@.locals
                &&& old(ctx).sound() && old(ctx).live() && jump_at(
                    old(ctx)@.chunk.code,
                    then_jump as int,
                ) && old(ctx).jumps().contains_key(then_jump as int) && old(ctx).jumps()[then_jump as int]
                    == old(ctx).depth() + 1 ==> {
                    &&& final(ctx).sound()
                    &&& final(ctx).live()
                    &&& final(ctx).depth() == old(ctx).depth()
                    &&& final(ctx).jumps() == old(ctx).jumps().remove(then_jump as int).insert(
                        jump as int,
                        old(ctx).depth(),
                    )
                    &&& !old(ctx).jumps().contains_key(jump as int)
                    &&& jump_at(final(ctx)@.chunk.code, jump as int)
                    &&& kept_in(old(ctx).depths(), final(ctx).depths())
                }
            },
            Err(error) => then_end_spec(old(ctx)@, then_jump as int) == Err::<
                (CtxView, int),
                Failure,
            >(failing(error@, final(ctx)@)),
        },
{
    proof {
        if old(ctx).sound() {
            lemma_sound_whole(
                old(ctx)@.chunk.code,
                old(ctx)@.chunk.constants,
                old(ctx)@.heap.len(),
                old(ctx).jumps(),
                old(ctx).depths(),
            );
        }
    }
    let else_jump = emit_jump(ctx, OpCode::Jump);
    proof {
        if old(ctx).sound() && jump_at(old(ctx)@.chunk.code, then_jump as int) {
            lemma_jump_at_kept(old(ctx)@.chunk.code, ctx@.chunk.code, then_jump as int);
        }
    }
    patch_jump(ctx, then_jump)?;
    let ghost patched = ctx@.chunk.code;
    emit_op(ctx, OpCode::Pop);
    proof {
        if old(ctx).sound() && old(ctx).live() && jump_at(old(ctx)@.chunk.code, then_jump as int)
            && old(ctx).jumps().contains_key(then_jump as int) && old(ctx).jumps()[then_jump as int]
            == old(ctx).depth() + 1 {
            lemma_jump_at_kept(patched, ctx@.chunk.code, else_jump as int);
            assert(ctx.jumps() =~= old(ctx).jumps().remove(then_jump as int).insert(
                else_jump as int,
                old(ctx).depth(),
            ));
        }
    }
    Ok(else_jump)
}

/// Compiles the `else` branch of an `if` statement, if there is one.
fn else_branch(ctx: &mut CompilerCtx, Ghost(limit): Ghost<CtxView>, else_jump: usize) -> (result:
    Result<(), CompilerError>)
    requires
        old(ctx).wf(),
        else_jump + 2 <= old(ctx)@.chunk.code.len(),
        measure(old(ctx)@) <= measure(limit),
    ensures
        final(ctx).wf(),
        follows(old(ctx)@, final(ctx)@),
        kept_except(old(ctx)@.chunk.code, final(ctx)@.chunk.code, else_jump as int),
        final(ctx).spec_had_error() == old(ctx).spec_had_error(),
        result is Ok && settled(*old(ctx)) && jump_at(old(ctx)@.chunk.code, else_jump as int)
            && old(ctx).jumps().contains_key(else_jump as int) && old(ctx).jumps()[else_jump as int]
            == old(ctx).depth() ==> {
            &&& final(ctx)@.scope_depth == old(ctx)@.scope_depth
            &&& final(ctx)@.locals == old(ctx)@.locals
            &&& final(ctx).sound()
            &&& final(ctx).live()
            &&& final(ctx).depth() == old(ctx).depth()
            &&& final(ctx).jumps() == old(ctx).jumps().remove(else_jump as int)
            &&& kept_in(old(ctx).depths(), final(ctx).depths())
        },
        agrees(result, final(ctx)@, else_spec(old(ctx)@, limit, else_jump as int)),
    decreases measure(limit), 115int,
{
    if matches(ctx, TokenKind::Else)? {
        statement(ctx)?;
    }
    proof {
        if old(ctx).sound() && jump_at(old(ctx)@.chunk.code, else_jump as int) {
            lemma_jump_at_kept(old(ctx)@.chunk.code, ctx@.chunk.code, else_jump as int);
        }
    }
    patch_jump(ctx, else_jump)
}

#[verifier::rlimit(100)]
pub fn if_statement(ctx: &mut CompilerCtx) -> (result: Result<(), CompilerError>)
    requires
        old(ctx).wf(),
    ensures
        final(ctx).wf(),
        continues(old(ctx)@, final(ctx)@),
        final(ctx).spec_had_error() == old(ctx).spec_had_error(),
        result is Ok && settled(*old(ctx)) ==> steady(*old(ctx), *final(ctx), 0),
        agrees(result, final(ctx)@, if_statement_spec(old(ctx)@)),
    decreases measure(old(ctx)@), 120int,
{
    let then_jump = condition(ctx, "expect '(' after 'if'.")?;
    let ghost conditioned = *ctx;
    statement(ctx)?;
    let ghost branched = *ctx;
    proof {
        if settled(*old(ctx)) {
            assert(fits(*old(ctx)));
            assert(settled(conditioned));
            assert(steady(conditioned, branched, 0));
            lemma_jump_at_kept(conditioned@.chunk.code, ctx@.chunk.code, then_jump as int);
            assert(branched.jumps().contains_key(then_jump as int));
            assert(branched.jumps()[then_jump as int] == branched.depth() + 1);
        }
    }

    let else_jump = then_end(ctx, then_jump)?;
    let ghost ended = *ctx;
    proof {
        if settled(*old(ctx)) {
            assert(ended.sound() && ended.live());
            assert(ended.depth() == old(ctx).depth());
            assert(ended@.locals == old(ctx)@.locals);
            assert(ended@.scope_depth == old(ctx)@.scope_depth);
            assert(settled(ended));
            assert(ended.jumps().contains_key(else_jump as int));
            assert(ended.jumps()[else_jump as int] == ended.depth());
            assert(kept_in(old(ctx).depths(), ended.depths()));
        }
    }
    let result = else_branch(ctx, Ghost(old(ctx)@), else_jump);
    proof {
        if settled(*old(ctx)) && result is Ok {
            assert(ctx.jumps() =~= old(ctx).jumps());
        }
    }
    result
}

/// Ends a `while` statement: the jump back to `loop_start`; the jump out of
/// the loop lands behind it, where the condition is popped.
fn loop_end(ctx: &mut CompilerCtx, loop_start: usize, exit_jump: usize) -> (result: Result<
    (),
    CompilerError,
>)
    requires
        old(ctx).wf(),
        loop_start <= old(ctx)@.chunk.code.len(),
        exit_jump + 2 <= old(ctx)@.chunk.code.len(),
    ensures
        final(ctx).wf(),
        follows(old(ctx)@, final(ctx)@),
        kept_except(old(ctx)@.chunk.code, final(ctx)@.chunk.code, exit_jump as int),
        final(ctx).spec_had_error() == old(ctx).spec_had_error(),
        result is Ok ==> final(ctx)@.scope_depth == old(ctx)@.scope_depth && final(ctx)@.locals
            == old(ctx)@.locals,
        result is Ok && old(ctx).sound() && old(ctx).live() && jump_at(
            old(ctx)@.chunk.code,
            exit_jump as int,
        ) && boundary(old(ctx)@.chunk.code, loop_start as int) && old(ctx).jumps().contains_key(
            exit_jump as int,
        ) && old(ctx).jumps()[exit_jump as int] == old(ctx).depth() + 1
            && old(ctx).depths().contains_key(loop_start as int) && old(ctx).depths()[loop_start as int]
            == old(ctx).depth() ==> {
            &&& final(ctx).sound()
            &&& final(ctx).live()
            &&& final(ctx).depth() == old(ctx).depth()
            &&& final(ctx).jumps() == old(ctx).jumps().remove(exit_jump as int)
            &&& kept_in(old(ctx).depths(), final(ctx).depths())
        },
        agrees(
            result,
            final(ctx)@,
            loop_end_spec(old(ctx)@, loop_start as int, exit_jump as int),
        ),
{
    proof {
        if old(ctx).sound() {
            lemma_sound_whole(
                old(ctx)@.chunk.code,
                old(ctx)@.chunk.constants,
                old(ctx)@.heap.len(),
                old(ctx).jumps(),
                old(ctx).depths(),
            );
        }
    }
    emit_loop(ctx, loop_start)?;
    proof {
        if old(ctx).sound() && jump_at(old(ctx)@.chunk.code, exit_jump as int) {
            lemma_jump_at_kept(old(ctx)@.chunk.code, ctx@.chunk.code, exit_jump as int);
        }
    }

    patch_jump(ctx, exit_jump)?;
    emit_op(ctx, OpCode::Pop);
    Ok(())
}

#[verifier::rlimit(50)]
pub fn while_statement(ctx: &mut CompilerCtx) -> (result: Result<(), CompilerError>)
    requires
        old(ctx).wf(),
    ensures
        final(ctx).wf(),
        continues(old(ctx)@, final(ctx)@),
        final(ctx).spec_had_error() == old(ctx).spec_had_error(),
        result is Ok && settled(*old(ctx)) ==> steady(*old(ctx), *final(ctx), 0),
        agrees(result, final(ctx)@, while_statement_spec(old(ctx)@)),
    decreases measure(old(ctx)@), 120int,
{
    let loop_start = ctx.chunk.len();
    proof {
        if ctx.sound() {
            lemma_sound_whole(
                ctx@.chunk.code,
                ctx@.chunk.constants,
                ctx@.heap.len(),
                ctx.jumps(),
                ctx.depths(),
            );
        }
    }

    let exit_jump = condition(ctx, "expect '(' after 'while'.")?;
    let ghost conditioned = *ctx;
    statement(ctx)?;
    proof {
        if settled(*old(ctx)) {
            assert(settled(conditioned));
            lemma_jump_at_kept(conditioned@.chunk.code, ctx@.chunk.code, exit_jump as int);
            lemma_boundary_kept(old(ctx)@.chunk.code, ctx@.chunk.code, loop_start as int);
            assert(old(ctx).depths().contains_key(loop_start as int));
            assert(ctx.depths().contains_key(loop_start as int));
        }
    }
    let result = loop_end(ctx, loop_start, exit_jump);
    proof {
        if settled(*old(ctx)) && result is Ok {
            assert(ctx.jumps() =~= old(ctx).jumps());
        }
    }
    result
}

pub fn block(ctx: &mut CompilerCtx) -> (result: Result<(), CompilerError>)
    requires
        old(ctx).wf(),
    ensures
        final(ctx).wf(),
        continues(old(ctx)@, final(ctx)@),
        final(ctx).spec_had_error() == old(ctx).spec_had_error(),
        result is Ok && settled(*old(ctx)) ==> declared(*old(ctx), *final(ctx)) && settled(
            *final(ctx),
        ),
        agrees(result, final(ctx)@, block_spec(old(ctx)@)),
    decreases measure(old(ctx)@), 110int,
{
    while !check(ctx, TokenKind::RightBrace) && !check(ctx, TokenKind::Eof)
        invariant
            ctx.wf(),
            continues(old(ctx)@, ctx@),
            settled(*old(ctx)) ==> declared(*old(ctx), *ctx) && settled(*ctx),
            ctx.spec_had_error() == old(ctx).spec_had_error(),
            block_loop_spec(ctx@) == block_loop_spec(old(ctx)@),
        decreases measure(ctx@),
    {
        declaration(ctx)?;
    }

    consume(ctx, TokenKind::RightBrace, "expect '}' after block.")?;
    Ok(())
}

/// Compiles a block in a scope of its own.
fn scoped_block(ctx: &mut CompilerCtx) -> (result: Result<(), CompilerError>)
    requires
        old(ctx).wf(),
    ensures
        final(ctx).wf(),
        continues(old(ctx)@, final(ctx)@),
        final(ctx).spec_had_error() == old(ctx).spec_had_error(),
        result is Ok && settled(*old(ctx)) ==> steady(*old(ctx), *final(ctx), 0),
        agrees(result, final(ctx)@, scoped_block_spec(old(ctx)@)),
    decreases measure(old(ctx)@), 115int,
{
    begin_scope(ctx)?;
    let ghost opened = *ctx;
    block(ctx)?;
    let ghost filled = *ctx;
    end_scope(ctx);
    proof {
        if settled(*old(ctx)) {
            let before = old(ctx)@.locals;
            let inner = filled@.locals;
            let after = ctx@.locals;
            assert(settled(opened));
            assert(declared(opened, filled) && settled(filled));
            assert(after.len() == before.len()) by {
                if after.len() > before.len() {
                    assert(inner[after.len() - 1].depth == opened@.scope_depth);
                    assert(after.last() == inner[after.len() - 1]);
                }
                if after.len() < before.len() {
                    assert(inner[after.len() as int] == before[after.len() as int]);
                    assert(before[after.len() as int].depth <= old(ctx)@.scope_depth);
                }
            }
            assert(after =~= before);
        }
    }
    Ok(())
}

pub fn statement(ctx: &mut CompilerCtx) -> (result: Result<(), CompilerError>)
    requires
        old(ctx).wf(),
    ensures
        final(ctx).wf(),
        continues(old(ctx)@, final(ctx)@),
        progresses(old(ctx)@, final(ctx)@),
        final(ctx).spec_had_error() == old(ctx).spec_had_error(),
        result is Ok && settled(*old(ctx)) ==> steady(*old(ctx), *final(ctx), 0),
        agrees(result, final(ctx)@, statement_spec(old(ctx)@)),
    decreases measure(old(ctx)@), 80int,
{
    if matches(ctx, TokenKind::Print)? {
        print_statement(ctx)?;
    } else if matches(ctx, TokenKind::If)? {
        if_statement(ctx)?;
    } else if matches(ctx, TokenKind::While)? {
        while_statement(ctx)?;
    } else if matches(ctx, TokenKind::LeftBrace)? {
        scoped_block(ctx)?;
    } else {
        expression_statement(ctx)?;
    }

    Ok(())
}

pub fn var_declaration(ctx: &mut CompilerCtx) -> (result: Result<(), CompilerError>)
    requires
        old(ctx).wf(),
    ensures
        final(ctx).wf(),
        continues(old(ctx)@, final(ctx)@),
        final(ctx).spec_had_error() == old(ctx).spec_had_error(),
        result is Ok && settled(*old(ctx)) ==> declared(*old(ctx), *final(ctx)) && settled(
            *final(ctx),
        ),
        agrees(result, final(ctx)@, var_declaration_spec(old(ctx)@)),
    decreases measure(old(ctx)@), 85int,
{
    let global = parse_variable(ctx, "expect variable name.")?;

    if matches(ctx, TokenKind::Equal)? {
        expression(ctx)?;
    } else {
        emit_op(ctx, OpCode::AddNil);
    }

    consume(ctx, TokenKind::Semicolon, "expect ';' after variable declaration.")?;

    define_variable(ctx, global);

    Ok(())
}

pub fn declaration(ctx: &mut CompilerCtx) -> (result: Result<(), CompilerError>)
    requires
        old(ctx).wf(),
    ensures
        final(ctx).wf(),
        continues(old(ctx)@, final(ctx)@),
        progresses(old(ctx)@, final(ctx)@),
        final(ctx).spec_had_error() == old(ctx).spec_had_error(),
        result is Ok && settled(*old(ctx)) ==> declared(*old(ctx), *final(ctx)) && settled(
            *final(ctx),
        ),
        agrees(result, final(ctx)@, declaration_spec(old(ctx)@)),
    decreases measure(old(ctx)@), 90int,
{
    if matches(ctx, TokenKind::Var)? {
        var_declaration(ctx)?
    } else {
        statement(ctx)?
    }

    Ok(())
}

/// Skips tokens to where the compiler can go on after an error, and ends
/// the panic mode.
pub fn synchronize(ctx: &mut CompilerCtx)
    requires
        old(ctx).wf(),
    ensures
        final(ctx).wf(),
        continues(old(ctx)@, final(ctx)@),
        final(ctx).spec_had_error() == old(ctx).spec_had_error(),
        quiet(*old(ctx), *final(ctx)),
        !final(ctx).spec_panic_mode(),
        final(ctx)@ == synchronize_spec(old(ctx)@),
{
    ctx.panic_mode = false;

    while !matches!(ctx.current.kind, TokenKind::Eof)
        invariant
            ctx.wf(),
            continues(old(ctx)@, ctx@),
            quiet(*old(ctx), *ctx),
            !ctx.spec_panic_mode(),
            ctx.spec_had_error() == old(ctx).spec_had_error(),
            synchronize_spec(ctx@) == synchronize_spec(old(ctx)@),
        decreases measure(ctx@),
    {
        if matches!(ctx.previous.kind, TokenKind::Semicolon) {
            return ;
        }
        if let TokenKind::Class
        | TokenKind::Fun
        | TokenKind::Var
        | TokenKind::For
        | TokenKind::If
        | TokenKind::While
        | TokenKind::Print
        | TokenKind::Return = ctx.current.kind {
            return ;
        }
        let _ = advance(ctx);
    }
}

/// Ends the program: the code returns.
pub fn end(ctx: &mut CompilerCtx)
    requires
        old(ctx).wf(),
    ensures
        final(ctx).wf(),
        continues(old(ctx)@, final(ctx)@),
        final(ctx).spec_had_error() == old(ctx).spec_had_error(),
        final(ctx).jumps() == old(ctx).jumps(),
        final(ctx).depths() == old(ctx).depths(),
        old(ctx).sound() && old(ctx).live() && old(ctx).depth() == 0 ==> final(ctx).sound(),
        final(ctx)@ == emit_op_spec(old(ctx)@, OpCode::Return),
{
    emit_return(ctx);
}

/// At the end of the source the token that follows `Eof` is `Eof`.
proof fn lemma_advance_at_end(c: CtxView)
    requires
        c.current.kind == TokenKind::Eof,
        c.position == c.source.len(),
    ensures
        advance_spec(c) is Ok,
        advance_spec(c)->Ok_0.current.kind == TokenKind::Eof,
        advance_spec(c)->Ok_0.previous.kind == TokenKind::Eof,
        advance_spec(c)->Ok_0.position == c.source.len(),
        advance_spec(c)->Ok_0.source == c.source,
{
}

/// One step after an error, from where the compiler can go on: it takes the
/// `Eof` token, or compiles the next declaration. An error leaves it in panic
/// mode, and nothing else does. Says whether it has come to the end.
fn recover_next(ctx: &mut CompilerCtx) -> (done: bool)
    requires
        old(ctx).wf(),
    ensures
        final(ctx).wf(),
        continues(old(ctx)@, final(ctx)@),
        final(ctx).spec_had_error() == old(ctx).spec_had_error(),
        (final(ctx)@, final(ctx).spec_panic_mode(), done) == recover_next_spec(old(ctx)@),
        !done ==> measure(final(ctx)@) < measure(old(ctx)@),
        done ==> {
            &&& final(ctx)@.position == final(ctx)@.source.len()
            &&& final(ctx)@.previous.kind == TokenKind::Eof
            &&& final(ctx)@.current.kind == TokenKind::Eof
        },
{
    proof {
        ctx.lemma_wf();
        if ctx@.current.kind == TokenKind::Eof {
            lemma_advance_at_end(ctx@);
        }
    }
    match matches(ctx, TokenKind::Eof) {
        Err(_) => {
            ctx.panic_mode = true;
            false
        },
        Ok(true) => {
            ctx.panic_mode = false;
            true
        },
        Ok(false) => {
            ctx.panic_mode = declaration(ctx).is_err();
            false
        },
    }
}

/// After the first error: the compiler is in panic mode, synchronizes, and
/// goes on to the end of the source, as it would to report more errors;
/// none of them is kept. It ends past the `Eof` token, out of panic mode, in
/// the state that `recover_spec` gives.
pub fn recover(ctx: &mut CompilerCtx)
    requires
        old(ctx).wf(),
    ensures
        final(ctx).wf(),
        continues(old(ctx)@, final(ctx)@),
        final(ctx).spec_had_error(),
        !final(ctx).spec_panic_mode(),
        final(ctx)@ == recover_spec(old(ctx)@, true),
        final(ctx)@.position == final(ctx)@.source.len(),
        final(ctx)@.previous.kind == TokenKind::Eof,
        final(ctx)@.current.kind == TokenKind::Eof,
{
    ctx.had_error = true;
    ctx.panic_mode = true;
    let mut done = false;
    while !done
        invariant
            ctx.wf(),
            continues(old(ctx)@, ctx@),
            ctx.spec_had_error(),
            !done ==> recover_spec(ctx@, ctx.spec_panic_mode()) == recover_spec(old(ctx)@, true),
            done ==> {
                &&& ctx@ == recover_spec(old(ctx)@, true)
                &&& !ctx.spec_panic_mode()
                &&& ctx@.position == ctx@.source.len()
                &&& ctx@.previous.kind == TokenKind::Eof
                &&& ctx@.current.kind == TokenKind::Eof
            },
        decreases measure(ctx@) + if done { 0int } else { 1int },
    {
        if ctx.panic_mode {
            synchronize(ctx);
        }
        done = recover_next(ctx);
    }
}

/// One step of a program: its next declaration, or at the end of the source
/// the `Return` that ends it. Says whether the program has ended.
fn program_step(ctx: &mut CompilerCtx) -> (result: Result<bool, CompilerError>)
    requires
        old(ctx).wf(),
    ensures
        final(ctx).wf(),
        continues(old(ctx)@, final(ctx)@),
        final(ctx).spec_had_error() == old(ctx).spec_had_error(),
        match result {
            Ok(ended) => {
                &&& program_spec(old(ctx)@) == if ended {
                    Ok::<CtxView, Failure>(final(ctx)@)
                } else {
                    program_spec(final(ctx)@)
                }
                &&& program_marks(old(ctx)@) == if ended {
                    Set::<int>::empty().insert(old(ctx)@.chunk.code.len() as int)
                } else {
                    program_marks(final(ctx)@).insert(old(ctx)@.chunk.code.len() as int)
                }
                &&& !ended ==> measure(final(ctx)@) < measure(old(ctx)@)
                &&& ended ==> final(ctx)@.chunk.code.len() > 0 && final(ctx)@.chunk.code.last()
                    == opcode_byte(OpCode::Return)
                &&& settled(*old(ctx)) && old(ctx)@.scope_depth == 0 ==> {
                    &&& old(ctx).depth() == 0
                    &&& final(ctx).sound()
                    &&& final(ctx).jumps() == old(ctx).jumps()
                    &&& kept_in(old(ctx).depths(), final(ctx).depths())
                    &&& !ended ==> settled(*final(ctx)) && final(ctx)@.scope_depth == 0
                }
            },
            Err(error) => program_spec(old(ctx)@) == Err::<CtxView, Failure>(failing(error@, final(ctx)@)),
        },
{
    proof {
        if old(ctx)@.locals.len() > 0 && settled(*old(ctx)) {
            assert(old(ctx)@.locals[0].depth >= 1);
        }
    }
    if matches(ctx, TokenKind::Eof)? {
        end(ctx);
        Ok(true)
    } else {
        declaration(ctx)?;
        Ok(false)
    }
}

/// The declarations of a program up to the end of the source, and the
/// `Return` that ends it.
fn program(ctx: &mut CompilerCtx) -> (result: Result<(), CompilerError>)
    requires
        old(ctx).wf(),
    ensures
        final(ctx).wf(),
        continues(old(ctx)@, final(ctx)@),
        final(ctx).spec_had_error() == old(ctx).spec_had_error(),
        agrees(result, final(ctx)@, program_spec(old(ctx)@)),
        result is Ok ==> final(ctx)@.chunk.code.len() > 0 && final(ctx)@.chunk.code.last()
            == opcode_byte(OpCode::Return),
        result is Ok && settled(*old(ctx)) && old(ctx)@.scope_depth == 0 ==> {
            &&& final(ctx).sound()
            &&& final(ctx).jumps() == old(ctx).jumps()
            &&& kept_in(old(ctx).depths(), final(ctx).depths())
            &&& forall|p: int| #[trigger]
                program_marks(old(ctx)@).contains(p) ==> final(ctx).depths().contains_key(p)
                    && final(ctx).depths()[p] == 0
        },
{
    loop
        invariant
            ctx.wf(),
            continues(old(ctx)@, ctx@),
            ctx.spec_had_error() == old(ctx).spec_had_error(),
            program_spec(ctx@) == program_spec(old(ctx)@),
            settled(*old(ctx)) && old(ctx)@.scope_depth == 0 ==> {
                &&& settled(*ctx)
                &&& ctx@.scope_depth == 0
                &&& ctx.jumps() == old(ctx).jumps()
                &&& kept_in(old(ctx).depths(), ctx.depths())
                &&& forall|p: int| #[trigger]
                    program_marks(old(ctx)@).contains(p) ==> (ctx.depths().contains_key(p)
                        && ctx.depths()[p] == 0) || program_marks(ctx@).contains(p)
            },
        decreases measure(ctx@),
    {
        let ghost before = *ctx;
        if program_step(ctx)? {
            return Ok(());
        }
        proof {
            if settled(*old(ctx)) && old(ctx)@.scope_depth == 0 {
                assert(before.depths().contains_key(before@.chunk.code.len() as int));
            }
        }
    }
}

pub struct Compiler<'c> {
    options: Option<&'c CompilerOptions>,
}

impl<'c> Compiler<'c> {
    pub closed spec fn spec_options(&self) -> Option<&'c CompilerOptions> {
        self.options
    }

    pub fn new(options: Option<&'c CompilerOptions>) -> (compiler: Self)
        ensures
            compiler.spec_options() == options,
    {
        Self { options }
    }

    pub fn options(&self) -> (options: Option<&'c CompilerOptions>)
        ensures
            options == self.spec_options(),
    {
        self.options
    }

    /// Compiles the program `source` into a chunk that ends with `Return`;
    /// its strings and names are interned in `heap`. `numbers` holds the
    /// value of each number literal of the source, in order, by its bit
    /// pattern. The first error of the program is the one that is given,
    /// though the compiler goes on to the end of the source. The chunk is
    /// well formed and balanced: its instructions find the stack as deep as
    /// they need it, between two statements that are in no block the stack
    /// is empty, and the program returns on an empty stack.
    pub fn compile(&self, source: &'c str, heap: &mut Heap, numbers: &'c Vec<u64>) -> (result:
        Result<Chunk, CompilerError>)
        requires
            old(heap).wf(),
        ensures
            final(heap).wf(),
            extends(old(heap)@, final(heap)@),
            final(heap)@ == compiled_heap(source@, numbers@, old(heap)@),
            match result {
                Ok(chunk) => {
                    &&& chunk.wf()
                    &&& compile_spec(source@, numbers@, old(heap)@) == Ok::<
                        (ChunkView, Seq<Seq<char>>),
                        CompilerErrorView,
                    >((chunk@, final(heap)@))
                    &&& chunk@.code.len() == chunk@.lines.len()
                    &&& well_formed(chunk@, final(heap)@.len())
                    &&& balanced(chunk@.code, statement_marks(source@, numbers@, old(heap)@))
                    &&& chunk@.code.len() > 0
                    &&& chunk@.code.last() == opcode_byte(OpCode::Return)
                },
                Err(error) => compile_spec(source@, numbers@, old(heap)@) == Err::<
                    (ChunkView, Seq<Seq<char>>),
                    CompilerErrorView,
                >(error@),
            },
    {
        let mut owned = Heap::new();
        core::mem::swap(heap, &mut owned);
        let mut ctx = CompilerCtx::new(source, self.options, owned, numbers);
        let ghost start = ctx@;
        proof {
            lemma_sound_ends(ctx@.chunk, ctx@.heap.len(), ctx.depths());
            assert(ctx@.chunk.code =~= Seq::<u8>::empty());
            assert(ctx@.chunk.constants =~= Seq::<Value>::empty());
        }
        let ghost advanced = advance_spec(start);
        let outcome = match advance(&mut ctx) {
            Err(error) => Err(error),
            Ok(()) => program(&mut ctx),
        };
        if outcome.is_err() {
            recover(&mut ctx);
        }
        core::mem::swap(heap, &mut ctx.heap);
        match outcome {
            Err(error) => Err(error),
            Ok(()) => {
                proof {
                    ctx.chunk.lemma_wf();
                    lemma_sound_ends(ctx.chunk@, heap@.len(), ctx.depths());
                    assert(statement_marks(source@, numbers@, old(heap)@) == program_marks(
                        advanced->Ok_0,
                    ));
                    assert(empty_at(ctx.depths(), statement_marks(source@, numbers@, old(heap)@)));
                }
                Ok(ctx.chunk)
            },
        }
    }
}

/// A patched jump holds an offset of at most `MAX_JUMP` that leads from
/// behind its operand to the end of the code as it is then: to the boundary
/// of an instruction, where the code is made of whole instructions.
pub proof fn lemma_patched_jump_lands(c: CtxView, offset: int)
    requires
        whole(c.chunk.code),
        jump_at(c.chunk.code, offset),
        patch_jump_spec(c, offset) is Ok,
    ensures
        ({
            let code = patch_jump_spec(c, offset)->Ok_0.chunk.code;
            let jump = offset_of(code[offset], code[offset + 1]);
            &&& 0 <= jump <= MAX_JUMP
            &&& offset + 2 + jump == code.len()
            &&& whole(code)
            &&& boundary(code, offset + 2 + jump)
        }),
{
    let jump = (c.chunk.code.len() - offset - 2) as u16;
    let bytes = offset_bytes(jump);
    lemma_whole_patched(c.chunk.code, offset, bytes.0, bytes.1);
}

/// The end of a `while` statement: the jump out of the loop, whose operand
/// is at `exit_jump`, leads over the body and the jump back exactly, to the
/// pop of the condition that ends the statement. The code of the body stays
/// as it was assembled.
pub proof fn lemma_loop_exit_skips_body(c: CtxView, loop_start: int, exit_jump: int)
    requires
        0 <= exit_jump,
        exit_jump + 2 <= c.chunk.code.len(),
        loop_end_spec(c, loop_start, exit_jump) is Ok,
    ensures
        ({
            let before = c.chunk.code;
            let code = loop_end_spec(c, loop_start, exit_jump)->Ok_0.chunk.code;
            let target = exit_jump + 2 + offset_of(code[exit_jump], code[exit_jump + 1]);
            &&& code.len() == before.len() + 4
            &&& code[before.len() as int] == opcode_byte(OpCode::Loop)
            &&& target == before.len() + 3
            &&& code[target] == opcode_byte(OpCode::Pop)
            &&& forall|i: int|
                0 <= i < before.len() && i != exit_jump && i != exit_jump + 1 ==> code[i]
                    == before[i]
        }),
{
    let looped = emit_loop_spec(c, loop_start)->Ok_0;
    let jump = (looped.chunk.code.len() - exit_jump - 2) as u16;
    let bytes = offset_bytes(jump);
    assert(offset_of(bytes.0, bytes.1) == jump);
}

} // verus!
