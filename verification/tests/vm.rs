use rlox::scanner::number_literals;
use rlox::value::Value;
use rlox::value::Output;
use rlox::vm::{Arithmetic, Signal, Vm, VmError};

const STEPS: usize = 1000;

fn numbers_of(source: &str) -> Vec<u64> {
    number_literals(source)
        .iter()
        .map(|text| text.parse::<f64>().unwrap().to_bits())
        .collect()
}

fn apply(op: Arithmetic, left: u64, right: u64) -> u64 {
    let (left, right) = (f64::from_bits(left), f64::from_bits(right));
    let result = match op {
        Arithmetic::Add => left + right,
        Arithmetic::Substract => left - right,
        Arithmetic::Multiply => left * right,
        Arithmetic::Divide => left / right,
    };
    result.to_bits()
}

/// Drives the machine to the end of the program; what the program prints is
/// collected in `printed`, one entry for each line.
fn interpret(vm: &mut Vm, source: &str, printed: &mut Vec<String>) -> Result<Value, VmError> {
    let numbers = numbers_of(source);
    let mut signal = vm.interpret(source, &numbers, STEPS)?;
    loop {
        match signal {
            Signal::Done(value) => return Ok(value),
            Signal::Continue => {}
            Signal::Print(Output::Text(text)) => printed.push(text),
            Signal::Print(Output::Number(bits)) => printed.push(format!("{}", f64::from_bits(bits))),
            Signal::Compute { op, left, right } => {
                assert!(vm.supply(apply(op, left, right)));
            }
        }
        signal = match vm.run(STEPS) {
            Ok(signal) => signal,
            Err(error) => return Err(VmError::Runtime(error)),
        };
    }
}

fn run(source: &str) -> (Result<Value, VmError>, Vec<String>) {
    let mut vm = Vm::new(None);
    let mut printed = Vec::new();
    let result = interpret(&mut vm, source, &mut printed);
    (result, printed)
}

fn number(value: f64) -> Value {
    Value::Number(value.to_bits())
}

fn runtime_error(result: Result<Value, VmError>) -> (String, usize) {
    match result {
        Err(VmError::Runtime(error)) => (error.msg().to_string(), error.line()),
        other => panic!("expected a runtime error, got {:?}", other),
    }
}

fn compiler_error(result: Result<Value, VmError>) -> (String, usize) {
    match result {
        Err(VmError::Compile(error)) => (error.msg().to_string(), error.line()),
        other => panic!("expected a compile error, got {:?}", other),
    }
}

#[test]
fn op_add_two_numbers() {
    let (result, _) = run("1 + 1;");
    assert_eq!(number(2.0), result.unwrap());
}

#[test]
fn op_add_two_strings() {
    let mut vm = Vm::new(None);
    let mut printed = Vec::new();
    let result = interpret(&mut vm, "\"hello\" + \" world!\";", &mut printed).unwrap();
    let expected = vm.intern("hello world!");
    assert_eq!(Value::String(expected), result);
    let handle = result.as_string().unwrap();
    assert_eq!("hello world!", vm.heap().get(handle).unwrap().as_str());
}

#[test]
fn op_add_type_both_number_error() {
    let (result, _) = run("1 + \"1\";");
    assert_eq!(
        ("operands must be two numbers of two strings.".to_string(), 1),
        runtime_error(result)
    );
}

#[test]
fn op_add_type_both_number_error_2() {
    let (result, _) = run("1 + nil;");
    assert_eq!(
        ("operands must be two numbers of two strings.".to_string(), 1),
        runtime_error(result)
    );
}

#[test]
fn undefinded_local_error() {
    let (result, _) = run("{ print a; }");
    assert_eq!(("undefined variable 'a'.".to_string(), 1), runtime_error(result));
}

#[test]
fn prints_arithmetic_with_precedence() {
    let (result, printed) = run("print 1 + 2 * 3;");
    assert!(result.is_ok());
    assert_eq!(vec!["7".to_string()], printed);
}

#[test]
fn prints_joined_strings() {
    let (result, printed) = run("var a = \"hi\"; var b = \"!\"; print a + b;");
    assert!(result.is_ok());
    assert_eq!(vec!["hi!".to_string()], printed);
}

#[test]
fn inner_local_shadows_outer() {
    let (result, printed) = run("{ var a = 1; { var a = 2; print a; } print a; }");
    assert!(result.is_ok());
    assert_eq!(vec!["2".to_string(), "1".to_string()], printed);
}

#[test]
fn if_takes_then_branch() {
    let (result, printed) = run("var a = 3; if (a > 2) print \"big\"; else print \"small\";");
    assert!(result.is_ok());
    assert_eq!(vec!["big".to_string()], printed);
}

#[test]
fn if_takes_else_branch() {
    let (result, printed) = run("var a = 1; if (a > 2) print \"big\"; else print \"small\";");
    assert!(result.is_ok());
    assert_eq!(vec!["small".to_string()], printed);
}

#[test]
fn while_counts_to_three() {
    let (result, printed) = run("var i = 0; while (i < 3) { print i; i = i + 1; }");
    assert!(result.is_ok());
    assert_eq!(vec!["0".to_string(), "1".to_string(), "2".to_string()], printed);
}

#[test]
fn undefined_global_is_a_runtime_error() {
    let (result, _) = run("print a;");
    assert_eq!(("undefined variable 'a'.".to_string(), 1), runtime_error(result));
}

#[test]
fn negating_a_string_is_a_runtime_error() {
    let (result, _) = run("-\"x\";");
    assert_eq!(("operand must be a number.".to_string(), 1), runtime_error(result));
}

#[test]
fn local_in_its_own_initializer_is_a_compiler_error() {
    let (result, _) = run("{ var a = a; }");
    assert_eq!(
        ("can't read local variable in its own initializer.".to_string(), 1),
        compiler_error(result)
    );
}

#[test]
fn assignment_to_a_sum_is_a_compiler_error() {
    let (result, _) = run("2 + 2 = 42;");
    assert_eq!(("invalid assignment target.".to_string(), 1), compiler_error(result));
}

#[test]
fn adding_number_and_string_is_a_runtime_error() {
    let (result, _) = run("1 + \"s\";");
    assert_eq!(
        ("operands must be two numbers of two strings.".to_string(), 1),
        runtime_error(result)
    );
}

#[test]
fn empty_program_returns_nil() {
    let (result, printed) = run("");
    assert_eq!(Value::Nil, result.unwrap());
    assert!(printed.is_empty());
}

#[test]
fn logical_operators_short_circuit() {
    let (_, printed) = run("print false and 1; print true and 2; print nil or 3; print 4 or 5;");
    assert_eq!(
        vec!["false".to_string(), "2".to_string(), "3".to_string(), "4".to_string()],
        printed
    );
}

#[test]
fn comparisons_and_equality() {
    let (_, printed) = run(
        "print 1 < 2; print 2 <= 2; print 3 > 4; print 4 >= 5; print 1 == 1; print 1 != 1; \
         print \"a\" == \"a\"; print \"a\" == \"b\"; print nil == false; print 1 == \"1\";",
    );
    let expected: Vec<String> =
        ["true", "true", "false", "false", "true", "false", "true", "false", "false", "false"]
            .iter()
            .map(|text| text.to_string())
            .collect();
    assert_eq!(expected, printed);
}

#[test]
fn double_negation_gives_truthiness() {
    let (_, printed) = run("print !!nil; print !!false; print !!0; print !!\"\"; print !!true;");
    let expected: Vec<String> =
        ["false", "false", "true", "true", "true"].iter().map(|text| text.to_string()).collect();
    assert_eq!(expected, printed);
}

#[test]
fn string_concatenation_is_associative_under_interning() {
    let mut vm = Vm::new(None);
    let mut printed = Vec::new();
    let left = interpret(&mut vm, "(\"a\" + \"b\") + \"c\";", &mut printed).unwrap();
    let right = interpret(&mut vm, "\"a\" + (\"b\" + \"c\");", &mut printed).unwrap();
    assert_eq!(left, right);
    assert!(left.is_string());
}

#[test]
fn globals_outlive_a_program() {
    let mut vm = Vm::new(None);
    let mut printed = Vec::new();
    interpret(&mut vm, "var a = 1.5;", &mut printed).unwrap();
    interpret(&mut vm, "a = a * 2; print a;", &mut printed).unwrap();
    assert_eq!(vec!["3".to_string()], printed);
}

#[test]
fn assigning_an_undefined_global_is_an_error_and_defines_nothing() {
    let mut vm = Vm::new(None);
    let mut printed = Vec::new();
    let result = interpret(&mut vm, "a = 1;", &mut printed);
    assert_eq!(("undefined variable 'a'.".to_string(), 1), runtime_error(result));
    let result = interpret(&mut vm, "print a;", &mut printed);
    assert_eq!(("undefined variable 'a'.".to_string(), 1), runtime_error(result));
}

#[test]
fn runtime_error_reports_the_line() {
    let (result, _) = run("var a = 1;\nvar b = 2;\nprint -nil;");
    assert_eq!(("operand must be a number.".to_string(), 3), runtime_error(result));
}

#[test]
fn division_and_negative_numbers() {
    let (_, printed) = run("print 7 / 2; print -3 - 2; print -(1 - 1) == 0;");
    assert_eq!(vec!["3.5".to_string(), "-5".to_string(), "true".to_string()], printed);
}

#[test]
fn supply_is_refused_when_nothing_is_awaited() {
    let mut vm = Vm::new(None);
    assert!(!vm.supply(1.0f64.to_bits()));
}
