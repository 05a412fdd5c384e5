use rlox::bytecode::{Chunk, OpCode};
use rlox::compiler::Compiler;
use rlox::disassembler::{decimal_text, Disassembler};
use rlox::heap::Heap;
use rlox::scanner::number_literals;
use rlox::value::{Output, Value};

fn numbers_of(source: &str) -> Vec<u64> {
    number_literals(source)
        .iter()
        .map(|text| text.parse::<f64>().unwrap().to_bits())
        .collect()
}

fn text_of(pieces: &[Output]) -> String {
    pieces
        .iter()
        .map(|piece| match piece {
            Output::Text(text) => text.clone(),
            Output::Number(bits) => format!("{}", f64::from_bits(*bits)),
        })
        .collect()
}

fn listing_of(source: &str) -> String {
    let compiler = Compiler::new(None);
    let mut heap = Heap::new();
    let numbers = numbers_of(source);
    let chunk = compiler.compile(source, &mut heap, &numbers).unwrap();
    text_of(&Disassembler::disassemble_chunk(&chunk, "code", &heap))
}

#[test]
fn decimal_text_of_numbers() {
    assert_eq!("0", decimal_text(0));
    assert_eq!("7", decimal_text(7));
    assert_eq!("10", decimal_text(10));
    assert_eq!("65535", decimal_text(65535));
    assert_eq!(u128::MAX.to_string(), decimal_text(u128::MAX));
}

#[test]
fn listing_of_a_print_statement() {
    let expected = "== code ==\n\
                    0000 0001 OP_CONSTANT      0    '1.5'\n\
                    2000    | OP_CONSTANT      1    'hi'\n\
                    4000    | OP_EQUAL\n\
                    5000    | OP_PRINT\n\
                    6000 0002 OP_NIL\n\
                    7000    | OP_POP\n\
                    8000    | OP_RETURN\n";
    assert_eq!(expected, listing_of("print 1.5 == \"hi\";\nnil;"));
}

#[test]
fn listing_of_jumps_and_locals() {
    let expected = "== code ==\n\
                    0000 0001 OP_TRUE\n\
                    1000    | OP_GET_LOCAL     0   \n\
                    3000    | OP_JUMP_IF_FALSE 3    -> 13\n\
                    6000    | OP_POP\n\
                    7000    | OP_GET_LOCAL     0   \n\
                    9000    | OP_POP\n\
                    1000    | OP_LOOP          10   -> 1\n\
                    1300    | OP_POP\n\
                    1400    | OP_POP\n\
                    1500    | OP_RETURN\n";
    assert_eq!(expected, listing_of("{ var a = true; while (a) a; }"));
}

#[test]
fn listing_of_globals() {
    let expected = "== code ==\n\
                    0000 0001 OP_NIL\n\
                    1000    | OP_DEFINE_GLOBAL 0    'a'\n\
                    3000    | OP_TRUE\n\
                    4000    | OP_SET_GLOBAL    1    'a'\n\
                    6000    | OP_POP\n\
                    7000    | OP_GET_GLOBAL    2    'a'\n\
                    9000    | OP_NEGATE\n\
                    1000    | OP_POP\n\
                    1100    | OP_RETURN\n";
    assert_eq!(expected, listing_of("var a; a = true; -a;"));
}

#[test]
fn same_source_same_listing() {
    let source = "var a = 1; if (a < 2) { print a; } else print \"no\";";
    assert_eq!(listing_of(source), listing_of(source));
}

#[test]
fn same_source_on_one_heap_gives_the_same_listing() {
    let source = "var a = \"x\"; var b = \"y\"; print a + b + \"x\";";
    let compiler = Compiler::new(None);
    let mut heap = Heap::new();
    heap.intern("before");
    let numbers = numbers_of(source);
    let first = compiler.compile(source, &mut heap, &numbers).unwrap();
    let objects = heap.len();
    let second = compiler.compile(source, &mut heap, &numbers).unwrap();
    assert_eq!(objects, heap.len());
    assert_eq!(first.code(), second.code());
    assert_eq!(
        text_of(&Disassembler::disassemble_chunk(&first, "code", &heap)),
        text_of(&Disassembler::disassemble_chunk(&second, "code", &heap))
    );
    assert_eq!(listing_of(source), text_of(&Disassembler::disassemble_chunk(&second, "code", &heap)));
}

#[test]
fn one_instruction_is_listed_without_moving_on() {
    let mut chunk = Chunk::new();
    chunk.write(OpCode::AddNil.byte(), 3);
    chunk.write(OpCode::Return.byte(), 3);
    let heap = Heap::new();
    let mut disassembler = Disassembler::new(&chunk, "chunk", &heap);
    assert_eq!("1000    | OP_RETURN\n", text_of(&disassembler.disassemble_instruction(1)));
    assert_eq!("0000 0003 OP_NIL\n", text_of(&disassembler.disassemble_instruction(0)));
    let whole = text_of(disassembler.disassemble());
    assert_eq!("== chunk ==\n0000 0003 OP_NIL\n1000    | OP_RETURN\n", whole);
}

#[test]
fn broken_code_is_listed_too() {
    let mut chunk = Chunk::new();
    chunk.write(200, 1);
    chunk.write(OpCode::AddConstant.byte(), 1);
    chunk.write(9, 1);
    chunk.write(OpCode::Jump.byte(), 2);
    chunk.write(1, 2);
    let heap = Heap::new();
    let expected = "== broken ==\n\
                    0000 0001 unknown opcode 200\n\
                    1000    | OP_CONSTANT      9    '?'\n\
                    3000 0002 OP_JUMP\n";
    assert_eq!(expected, text_of(&Disassembler::disassemble_chunk(&chunk, "broken", &heap)));
}

#[test]
fn constants_of_every_kind_are_shown() {
    let mut chunk = Chunk::new();
    let mut heap = Heap::new();
    let handle = heap.intern("text");
    for value in [Value::Nil, Value::Boolean(true), Value::Boolean(false), Value::String(handle)] {
        let index = chunk.add_constant(value).unwrap();
        chunk.write(OpCode::AddConstant.byte(), 1);
        chunk.write(index as u8, 1);
    }
    let expected = "== c ==\n\
                    0000 0001 OP_CONSTANT      0    'nil'\n\
                    2000    | OP_CONSTANT      1    'true'\n\
                    4000    | OP_CONSTANT      2    'false'\n\
                    6000    | OP_CONSTANT      3    'text'\n";
    assert_eq!(expected, text_of(&Disassembler::disassemble_chunk(&chunk, "c", &heap)));
}
