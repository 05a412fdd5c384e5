use rlox::bytecode::{Chunk, OpCode};
use rlox::value::{Output, Value};
use rlox::vm::{Arithmetic, RuntimeError, Signal, Vm, VmError, VmOptions};

fn machine(code: &[u8], constants: &[Value]) -> Vm {
    let mut chunk = Chunk::new();
    for value in constants {
        chunk.add_constant(*value).unwrap();
    }
    for (index, byte) in code.iter().enumerate() {
        chunk.write(*byte, index + 1);
    }
    let mut vm = Vm::new(None);
    vm.load_chunk(chunk);
    vm
}

fn failure(result: Result<Signal, RuntimeError>) -> (String, usize) {
    match result {
        Err(error) => (error.msg().to_string(), error.line()),
        Ok(signal) => panic!("expected an error, got {:?}", signal),
    }
}

fn number(value: f64) -> Value {
    Value::Number(value.to_bits())
}

#[test]
fn an_empty_chunk_cannot_be_decoded() {
    let mut vm = machine(&[], &[]);
    assert_eq!(("cannot decode instruction.".to_string(), 0), failure(vm.step()));
}

#[test]
fn an_unknown_byte_cannot_be_decoded() {
    let mut vm = machine(&[OpCode::AddNil.byte(), 99], &[]);
    assert_eq!(Ok(Signal::Continue), vm.step());
    assert_eq!(("cannot decode instruction.".to_string(), 2), failure(vm.step()));
    assert!(vm.stack().is_empty());
}

#[test]
fn an_instruction_without_its_operand_is_truncated() {
    let mut vm = machine(&[OpCode::Jump.byte(), 0], &[]);
    assert_eq!(("truncated instruction.".to_string(), 1), failure(vm.step()));
}

#[test]
fn a_constant_must_exist() {
    let mut vm = machine(&[OpCode::AddConstant.byte(), 1], &[Value::Nil]);
    assert_eq!(("unknown constant.".to_string(), 2), failure(vm.step()));
}

#[test]
fn popping_needs_a_value() {
    for op in [OpCode::Pop, OpCode::Not, OpCode::Print, OpCode::Equal] {
        let mut vm = machine(&[op.byte()], &[]);
        assert_eq!(("empty stack.".to_string(), 1), failure(vm.step()));
    }
    let mut vm = machine(&[OpCode::AddNil.byte(), OpCode::Equal.byte()], &[]);
    vm.step().unwrap();
    assert_eq!(("empty stack.".to_string(), 2), failure(vm.step()));
}

#[test]
fn arithmetic_needs_its_operands() {
    for op in [
        OpCode::Negate,
        OpCode::Substract,
        OpCode::Multiply,
        OpCode::Divide,
        OpCode::Greater,
        OpCode::Less,
    ] {
        let mut vm = machine(&[op.byte()], &[]);
        assert_eq!(("missing operand.".to_string(), 1), failure(vm.step()));
    }
    let mut vm = machine(&[OpCode::Add.byte()], &[]);
    assert_eq!(("no value at distance: 1 in the stack.".to_string(), 1), failure(vm.step()));
}

#[test]
fn arithmetic_needs_numbers() {
    for op in [
        OpCode::Negate,
        OpCode::Substract,
        OpCode::Multiply,
        OpCode::Divide,
        OpCode::Greater,
        OpCode::Less,
    ] {
        let mut vm = machine(&[OpCode::AddNil.byte(), OpCode::AddTrue.byte(), op.byte()], &[]);
        vm.step().unwrap();
        vm.step().unwrap();
        assert_eq!(("operand must be a number.".to_string(), 3), failure(vm.step()));
        assert!(vm.stack().is_empty());
    }
}

#[test]
fn peeking_needs_a_value() {
    for code in [
        vec![OpCode::JumpIfFalse.byte(), 0, 0],
        vec![OpCode::SetLocal.byte(), 0],
        vec![OpCode::DefineGlobal.byte(), 0],
        vec![OpCode::SetGlobal.byte(), 0],
    ] {
        let mut chunk = Chunk::new();
        let mut vm = Vm::new(None);
        let name = vm.intern("name");
        chunk.add_constant(Value::String(name)).unwrap();
        for byte in code.iter() {
            chunk.write(*byte, 1);
        }
        vm.load_chunk(chunk);
        assert_eq!(("no value at distance: 0 in the stack.".to_string(), 1), failure(vm.step()));
    }
}

#[test]
fn a_global_needs_a_name() {
    for op in [OpCode::DefineGlobal, OpCode::GetGlobal, OpCode::SetGlobal] {
        let mut vm = machine(&[OpCode::AddNil.byte(), op.byte(), 0], &[number(1.0)]);
        vm.step().unwrap();
        assert_eq!(("constant is not a name.".to_string(), 3), failure(vm.step()));
        let mut vm = machine(&[OpCode::AddNil.byte(), op.byte(), 5], &[number(1.0)]);
        vm.step().unwrap();
        assert_eq!(("constant is not a name.".to_string(), 3), failure(vm.step()));
    }
}

#[test]
fn a_local_must_be_on_the_stack() {
    let mut vm = machine(&[OpCode::GetLocal.byte(), 0], &[]);
    assert_eq!(("unknown local.".to_string(), 2), failure(vm.step()));
    let mut vm = machine(&[OpCode::AddNil.byte(), OpCode::SetLocal.byte(), 1], &[]);
    vm.step().unwrap();
    assert_eq!(("unknown local.".to_string(), 3), failure(vm.step()));
}

#[test]
fn jumps_stay_in_the_code() {
    let mut vm = machine(&[OpCode::Jump.byte(), 1, 0], &[]);
    assert_eq!(("jump out of range.".to_string(), 3), failure(vm.step()));
    let mut vm = machine(&[OpCode::Loop.byte(), 4, 0], &[]);
    assert_eq!(("jump out of range.".to_string(), 3), failure(vm.step()));
    let mut vm = machine(&[OpCode::Jump.byte(), 0, 0], &[]);
    assert_eq!(Ok(Signal::Continue), vm.step());
    assert_eq!(3, vm.ip());
    let mut vm = machine(&[OpCode::Loop.byte(), 3, 0], &[]);
    assert_eq!(Ok(Signal::Continue), vm.step());
    assert_eq!(0, vm.ip());
}

#[test]
fn a_string_must_be_in_the_heap() {
    let ghost = Value::String(rlox::object::Handle::new(7));
    let mut vm = machine(&[OpCode::AddConstant.byte(), 0, OpCode::Print.byte()], &[ghost]);
    vm.step().unwrap();
    assert_eq!(("unknown object.".to_string(), 3), failure(vm.step()));
    let mut vm = machine(
        &[
            OpCode::AddConstant.byte(),
            0,
            OpCode::AddConstant.byte(),
            0,
            OpCode::Add.byte(),
        ],
        &[ghost],
    );
    vm.step().unwrap();
    vm.step().unwrap();
    assert_eq!(("unknown object.".to_string(), 5), failure(vm.step()));
}

#[test]
fn the_machine_waits_for_the_result_of_arithmetic() {
    let code = [
        OpCode::AddConstant.byte(),
        0,
        OpCode::AddConstant.byte(),
        1,
        OpCode::Divide.byte(),
        OpCode::Print.byte(),
        OpCode::Return.byte(),
    ];
    let mut vm = machine(&code, &[number(1.0), number(4.0)]);
    let wanted = Signal::Compute {
        op: Arithmetic::Divide,
        left: 1.0f64.to_bits(),
        right: 4.0f64.to_bits(),
    };
    assert_eq!(Ok(wanted.clone()), vm.run(100));
    assert!(vm.stack().is_empty());
    // Until the result is supplied nothing moves.
    assert_eq!(Ok(wanted.clone()), vm.step());
    assert_eq!(Ok(wanted), vm.run(100));
    assert_eq!(5, vm.ip());
    assert!(vm.supply(0.25f64.to_bits()));
    assert!(!vm.supply(0.5f64.to_bits()));
    assert_eq!(Ok(Signal::Print(Output::Number(0.25f64.to_bits()))), vm.run(100));
    assert_eq!(Ok(Signal::Done(number(0.25))), vm.run(100));
}

#[test]
fn running_stops_when_the_steps_are_used_up() {
    // while (true) {}
    let code = [
        OpCode::AddTrue.byte(),
        OpCode::JumpIfFalse.byte(),
        4,
        0,
        OpCode::Pop.byte(),
        OpCode::Loop.byte(),
        8,
        0,
        OpCode::Pop.byte(),
        OpCode::Return.byte(),
    ];
    let mut vm = machine(&code, &[]);
    for _ in 0..10 {
        assert_eq!(Ok(Signal::Continue), vm.run(1000));
    }
    assert_eq!(Ok(Signal::Continue), vm.run(0));
}

#[test]
fn return_gives_the_value_popped_last() {
    let mut vm = machine(&[OpCode::Return.byte()], &[]);
    assert_eq!(Ok(Signal::Done(Value::Nil)), vm.step());
    let code = [
        OpCode::AddTrue.byte(),
        OpCode::AddFalse.byte(),
        OpCode::Pop.byte(),
        OpCode::Return.byte(),
    ];
    let mut vm = machine(&code, &[]);
    assert_eq!(Ok(Signal::Done(Value::Boolean(false))), vm.run(10));
    assert_eq!(1, vm.stack().len());
}

#[test]
fn set_local_keeps_the_value_on_the_stack() {
    let code = [
        OpCode::AddNil.byte(),
        OpCode::AddTrue.byte(),
        OpCode::SetLocal.byte(),
        0,
        OpCode::GetLocal.byte(),
        0,
    ];
    let mut vm = machine(&code, &[]);
    assert_eq!(Ok(Signal::Continue), vm.run(4));
    let stack = vm.stack();
    assert_eq!(3, stack.len());
    assert_eq!(Some(&Value::Boolean(true)), stack.get(0));
    assert_eq!(Some(&Value::Boolean(true)), stack.get(1));
    assert_eq!(Some(&Value::Boolean(true)), stack.get(2));
}

#[test]
fn jump_if_false_leaves_the_condition() {
    let code = [OpCode::AddFalse.byte(), OpCode::JumpIfFalse.byte(), 1, 0, 99, OpCode::Return.byte()];
    let mut vm = machine(&code, &[]);
    assert_eq!(Ok(Signal::Continue), vm.run(2));
    assert_eq!(5, vm.ip());
    assert_eq!(1, vm.stack().len());
    let code = [OpCode::AddTrue.byte(), OpCode::JumpIfFalse.byte(), 1, 0, OpCode::Return.byte()];
    let mut vm = machine(&code, &[]);
    assert_eq!(Ok(Signal::Continue), vm.run(2));
    assert_eq!(4, vm.ip());
}

#[test]
fn the_stack_is_empty_when_a_program_ends() {
    let mut vm = Vm::new(None);
    let numbers = vec![1.0f64.to_bits(), 2.0f64.to_bits()];
    let source = "var a = 1; { var b = 2; print b; } if (a) { a = nil; } while (a) {} a;";
    let mut signal = vm.interpret(source, &numbers, 1000).unwrap();
    loop {
        match signal {
            Signal::Done(_) => break,
            Signal::Compute { .. } => panic!("no arithmetic in this program"),
            _ => {}
        }
        signal = vm.run(1000).unwrap();
    }
    assert!(vm.stack().is_empty());
}

#[test]
fn between_statements_the_stack_holds_the_locals_only() {
    let mut vm = Vm::new(None);
    let numbers = vec![1.0f64.to_bits(), 2.0f64.to_bits(), 3.0f64.to_bits()];
    let source = "print 1; var g = 2; print g; { var a = 3; print a; { var b = a; print b; } }";
    let mut depths = Vec::new();
    let mut signal = vm.interpret(source, &numbers, 1000).unwrap();
    loop {
        match signal {
            Signal::Done(_) => break,
            Signal::Print(_) => depths.push(vm.stack().len()),
            Signal::Compute { .. } => panic!("no arithmetic in this program"),
            _ => {}
        }
        signal = vm.run(1000).unwrap();
    }
    assert_eq!(vec![0, 0, 1, 2], depths);
    assert!(vm.stack().is_empty());
}

#[test]
fn a_compile_error_keeps_the_program_that_was_loaded() {
    let mut vm = Vm::new(None);
    let numbers = Vec::new();
    vm.load("nil;", &numbers).unwrap();
    let length = vm.chunk().len();
    match vm.load("nil", &numbers) {
        Err(VmError::Compile(error)) => assert_eq!("expect ';' after expression.", error.msg()),
        other => panic!("expected a compile error, got {:?}", other),
    }
    assert_eq!(length, vm.chunk().len());
}

#[test]
fn options_are_kept() {
    let vm = Vm::new(None);
    assert!(!vm.options().trace_execution);
    assert!(!vm.options().compiler.print_code);
    let mut options = VmOptions::default();
    options.trace_execution = true;
    options.compiler.print_code = true;
    let vm = Vm::new(Some(options));
    assert!(vm.options().trace_execution);
    assert!(vm.options().compiler.print_code);
}

#[test]
fn errors_convert_into_machine_errors() {
    let error = VmError::runtime("boom", 3);
    match error {
        VmError::Runtime(ref inner) => {
            assert_eq!("boom", inner.msg());
            assert_eq!(3, inner.line());
        }
        _ => panic!("expected a runtime error"),
    }
    let mut vm = Vm::new(None);
    let compile = vm.load("(", &Vec::new()).unwrap_err();
    assert!(matches!(compile, VmError::Compile(_)));
}
