use rlox::bytecode::{Chunk, OpCode};
use rlox::compiler::{Compiler, CompilerError};
use rlox::heap::Heap;
use rlox::scanner::number_literals;

fn numbers_of(source: &str) -> Vec<u64> {
    number_literals(source)
        .iter()
        .map(|text| text.parse::<f64>().unwrap().to_bits())
        .collect()
}

fn compile(source: &str) -> Result<Chunk, CompilerError> {
    let compiler = Compiler::new(None);
    let mut heap = Heap::new();
    let numbers = numbers_of(source);
    compiler.compile(source, &mut heap, &numbers)
}

fn error_of(source: &str) -> (String, usize) {
    match compile(source) {
        Err(error) => (error.msg().clone(), error.line()),
        Ok(_) => panic!("expected an error"),
    }
}

fn code_of(source: &str) -> Vec<u8> {
    let chunk = compile(source).unwrap();
    let mut code = Vec::new();
    let mut iter = chunk.code().iter();
    while let Some(byte) = iter.next() {
        code.push(*byte);
    }
    code
}

#[test]
fn compiler_unary_negation_error() {
    assert_eq!(("expect expression.".to_string(), 1), error_of("-"));
}

#[test]
fn compiler_substraction_error() {
    assert_eq!(("expect expression.".to_string(), 1), error_of("2 -"));
}

#[test]
fn compiler_addition_error() {
    assert_eq!(("expect expression.".to_string(), 1), error_of("2 +"));
}

#[test]
fn compiler_multiplication_error() {
    assert_eq!(("expect expression.".to_string(), 1), error_of("2 *"));
}

#[test]
fn compiler_division_error() {
    assert_eq!(("expect expression.".to_string(), 1), error_of("2 /"));
}

#[test]
fn compiler_grouping_unclosed_paren_error() {
    assert_eq!(("expect ')' after expression.".to_string(), 1), error_of("(2 + 2"));
}

#[test]
fn expr_stmt_missing_semicolon_error() {
    assert_eq!(("expect ';' after expression.".to_string(), 1), error_of("2 + 2"));
}

#[test]
fn var_decl_missing_semicolon_error() {
    assert_eq!(
        ("expect ';' after variable declaration.".to_string(), 1),
        error_of("var answer = 42")
    );
}

#[test]
fn invalid_assigment_target_error() {
    assert_eq!(("invalid assignment target.".to_string(), 1), error_of("2 + 2 = 42;"));
}

#[test]
fn already_defined_local_error() {
    assert_eq!(
        ("already a variable with this name in this scope.".to_string(), 1),
        error_of("{ var a = \"foo\"; var a = \"bar\"; }")
    );
}

#[test]
fn using_itself_in_initializer_error() {
    assert_eq!(
        ("can't read local variable in its own initializer.".to_string(), 1),
        error_of("{ var a = a; }")
    );
}

#[test]
fn invalid_if_stmt_errors() {
    assert_eq!(("expect ')' after condition.".to_string(), 1), error_of("if (a == 1 {}"));
    assert_eq!(("expect '(' after 'if'.".to_string(), 1), error_of("if a == 1) {}"));
}

#[test]
fn invalid_while_stmt_errors() {
    assert_eq!(("expect ')' after condition.".to_string(), 1), error_of("while (a == 1 {}"));
    assert_eq!(("expect '(' after 'while'.".to_string(), 1), error_of("while a == 1) {}"));
}

#[test]
fn other_expectations_are_reported() {
    assert_eq!(("expect ';' after value.".to_string(), 1), error_of("print 1"));
    assert_eq!(("expect variable name.".to_string(), 1), error_of("var 1 = 2;"));
    assert_eq!(("expect '}' after block.".to_string(), 1), error_of("{ print 1;"));
    assert_eq!(("unterminated string literal".to_string(), 1), error_of("print \"abc"));
    assert_eq!(("unexpected character.".to_string(), 2), error_of("print 1;\nprint #;"));
}

#[test]
fn the_first_error_is_the_one_returned() {
    assert_eq!(
        ("expect expression.".to_string(), 1),
        error_of("print ; var 1;\nprint \"open")
    );
}

#[test]
fn errors_carry_the_line_of_the_current_token() {
    assert_eq!(("expect expression.".to_string(), 3), error_of("print 1;\n\nprint ;"));
}

#[test]
fn empty_program_is_a_single_return() {
    let chunk = compile("").unwrap();
    assert_eq!(vec![OpCode::Return.byte()], code_of(""));
    assert_eq!(1, chunk.lines().len());
    assert_eq!(0, chunk.constants().len());
}

#[test]
fn code_and_lines_have_one_length_and_code_ends_with_return() {
    let chunk = compile("var a = 1;\nwhile (a < 3) {\n  a = a + 1;\n}\nprint a;").unwrap();
    assert_eq!(chunk.len(), chunk.lines().len());
    assert_eq!(Some(OpCode::Return.byte()), chunk.byte_at(chunk.len() - 1));
}

#[test]
fn empty_block_emits_no_pop() {
    assert_eq!(vec![OpCode::Return.byte()], code_of("{}"));
}

#[test]
fn expression_statement_code() {
    let expected = vec![
        OpCode::AddConstant.byte(),
        0,
        OpCode::AddConstant.byte(),
        1,
        OpCode::AddConstant.byte(),
        2,
        OpCode::Multiply.byte(),
        OpCode::Add.byte(),
        OpCode::Print.byte(),
        OpCode::Return.byte(),
    ];
    assert_eq!(expected, code_of("print 1 + 2 * 3;"));
}

#[test]
fn comparison_operators_are_built_from_three() {
    let constant = OpCode::AddConstant.byte();
    let prefix = vec![constant, 0, constant, 1];
    let cases = [
        ("1 != 2;", vec![OpCode::Equal.byte(), OpCode::Not.byte()]),
        ("1 == 2;", vec![OpCode::Equal.byte()]),
        ("1 > 2;", vec![OpCode::Greater.byte()]),
        ("1 >= 2;", vec![OpCode::Less.byte(), OpCode::Not.byte()]),
        ("1 < 2;", vec![OpCode::Less.byte()]),
        ("1 <= 2;", vec![OpCode::Greater.byte(), OpCode::Not.byte()]),
        ("1 - 2;", vec![OpCode::Substract.byte()]),
        ("1 / 2;", vec![OpCode::Divide.byte()]),
    ];
    for (source, operator) in cases.iter() {
        let mut expected = prefix.clone();
        expected.extend(operator.iter());
        expected.push(OpCode::Pop.byte());
        expected.push(OpCode::Return.byte());
        assert_eq!(expected, code_of(source));
    }
}

#[test]
fn while_false_jumps_over_its_body_exactly() {
    let code = code_of("while (false) print 1;");
    let expected = vec![
        OpCode::AddFalse.byte(),
        OpCode::JumpIfFalse.byte(),
        7,
        0,
        OpCode::Pop.byte(),
        OpCode::AddConstant.byte(),
        0,
        OpCode::Print.byte(),
        OpCode::Loop.byte(),
        11,
        0,
        OpCode::Pop.byte(),
        OpCode::Return.byte(),
    ];
    assert_eq!(expected, code);
    // The jump lands just behind the loop's jump back: on the pop of the condition.
    let target = 4 + 7;
    assert_eq!(OpCode::Pop.byte(), code[target]);
}

#[test]
fn if_else_jumps() {
    let code = code_of("if (true) print 1; else print 2;");
    let expected = vec![
        OpCode::AddTrue.byte(),
        OpCode::JumpIfFalse.byte(),
        7,
        0,
        OpCode::Pop.byte(),
        OpCode::AddConstant.byte(),
        0,
        OpCode::Print.byte(),
        OpCode::Jump.byte(),
        4,
        0,
        OpCode::Pop.byte(),
        OpCode::AddConstant.byte(),
        1,
        OpCode::Print.byte(),
        OpCode::Return.byte(),
    ];
    assert_eq!(expected, code);
}

#[test]
fn locals_are_slots_and_globals_are_names() {
    let code = code_of("var g = 1; { var a = 2; a = g; print a; }");
    let expected = vec![
        OpCode::AddConstant.byte(),
        1,
        OpCode::DefineGlobal.byte(),
        0,
        OpCode::AddConstant.byte(),
        2,
        OpCode::GetGlobal.byte(),
        3,
        OpCode::SetLocal.byte(),
        0,
        OpCode::Pop.byte(),
        OpCode::GetLocal.byte(),
        0,
        OpCode::Print.byte(),
        OpCode::Pop.byte(),
        OpCode::Return.byte(),
    ];
    assert_eq!(expected, code);
}

#[test]
fn at_most_256_constants_fit_in_a_chunk() {
    let mut source = String::new();
    for i in 0..256 {
        source.push_str(&format!("{};", i));
    }
    assert!(compile(&source).is_ok());
    source.push_str("256;");
    assert_eq!(("too many constants in one chunk.".to_string(), 1), error_of(&source));
}

#[test]
fn at_most_256_locals_are_alive() {
    let mut source = String::from("{");
    for i in 0..256 {
        source.push_str(&format!("var a{};", i));
    }
    let mut full = source.clone();
    full.push('}');
    assert!(compile(&full).is_ok());
    source.push_str("var b;}");
    assert_eq!(("too many variables in function.".to_string(), 1), error_of(&source));
}

#[test]
fn a_jump_over_too_much_code_is_an_error() {
    let mut source = String::from("if (true) {");
    for _ in 0..22000 {
        source.push_str("nil;nil;");
    }
    source.push('}');
    assert_eq!(("too much code to jump over.".to_string(), 1), error_of(&source));
}

#[test]
fn a_loop_over_too_much_code_is_an_error() {
    let mut source = String::from("while (true) {");
    for _ in 0..16380 {
        source.push_str("nil;nil;");
    }
    source.push('}');
    assert!(compile(&source).is_ok());
    let mut source = String::from("while (true) {");
    for _ in 0..16390 {
        source.push_str("nil;nil;");
    }
    source.push('}');
    assert_eq!(("loop body too large.".to_string(), 1), error_of(&source));
}

#[test]
fn a_number_without_a_value_is_an_error() {
    let compiler = Compiler::new(None);
    let mut heap = Heap::new();
    let numbers = vec![1.0f64.to_bits()];
    let error = compiler.compile("1 + 2;", &mut heap, &numbers).unwrap_err();
    assert_eq!("number literal without a value.", error.msg());
}

#[test]
fn comments_are_not_parsed() {
    assert_eq!(
        code_of("print 1;"),
        code_of("// a comment\nprint // another\n1; // and the last")
    );
}

#[test]
fn strings_are_interned_without_their_quotes() {
    let compiler = Compiler::new(None);
    let mut heap = Heap::new();
    let numbers = Vec::new();
    let chunk = compiler.compile("\"hi\"; \"hi\"; \"\";", &mut heap, &numbers).unwrap();
    assert_eq!(2, heap.len());
    assert_eq!(3, chunk.constants().len());
    assert_eq!(chunk.constants().get(0), chunk.constants().get(1));
    let first = chunk.constants().get(0).unwrap().as_string().unwrap();
    assert_eq!("hi", heap.get(first).unwrap().as_str());
    let last = chunk.constants().get(2).unwrap().as_string().unwrap();
    assert_eq!("", heap.get(last).unwrap().as_str());
}

#[test]
fn same_source_gives_the_same_chunk() {
    let source = "var a = 1; { var b = a + 2; print b; }";
    assert_eq!(compile(source).unwrap(), compile(source).unwrap());
}

#[test]
fn unary_negation_error() {
    assert_eq!(("expect expression.".to_string(), 1), error_of("-"));
}

#[test]
fn substraction_error() {
    assert_eq!(("expect expression.".to_string(), 1), error_of("2 -"));
}

#[test]
fn addition_error() {
    assert_eq!(("expect expression.".to_string(), 1), error_of("2 +"));
}

#[test]
fn multiplication_error() {
    assert_eq!(("expect expression.".to_string(), 1), error_of("2 *"));
}

#[test]
fn division_error() {
    assert_eq!(("expect expression.".to_string(), 1), error_of("2 /"));
}

#[test]
fn grouping_unclosed_paren_error() {
    assert_eq!(("expect ')' after expression.".to_string(), 1), error_of("(2 + 2"));
}

#[test]
fn after_an_error_the_rest_of_the_source_is_compiled_too() {
    let source = "print \"early\";\nvar 1 = 2;\nprint \"late\";\nvar later = \"last\";";
    let compiler = Compiler::new(None);
    let mut heap = Heap::new();
    let numbers = numbers_of(source);
    let error = compiler.compile(source, &mut heap, &numbers).unwrap_err();
    assert_eq!("expect variable name.", error.msg());
    assert_eq!(2, error.line());
    let texts: Vec<String> = (0..heap.len())
        .map(|i| heap.get(rlox::object::Handle::new(i)).unwrap().as_str().to_string())
        .collect();
    assert_eq!(vec!["early", "late", "later", "last"], texts);
}

#[test]
fn after_an_error_tokens_are_skipped_to_the_next_statement() {
    let source = "print ; \"skipped\" \"too\"; print \"kept\";";
    let compiler = Compiler::new(None);
    let mut heap = Heap::new();
    let numbers = numbers_of(source);
    let error = compiler.compile(source, &mut heap, &numbers).unwrap_err();
    assert_eq!("expect expression.", error.msg());
    let texts: Vec<String> = (0..heap.len())
        .map(|i| heap.get(rlox::object::Handle::new(i)).unwrap().as_str().to_string())
        .collect();
    assert_eq!(vec!["skipped", "kept"], texts);
}
