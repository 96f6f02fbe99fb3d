use rlox::chunk::OpCode;
use rlox::compiler::number_literals;
use rlox::value::Value;
use rlox::vm::{result_of, ArithOp, InterpretResult, RuntimeError, Signal, STACK_MAX, VM};

fn numbers_of(source: &str) -> Vec<u64> {
    number_literals(source)
        .iter()
        .map(|&(start, end)| source[start..end].parse::<f64>().unwrap().to_bits())
        .collect()
}

fn start(vm: &mut VM, source: &str) -> Signal {
    let numbers = numbers_of(source);
    vm.interpret(source, &numbers).unwrap()
}

/// A machine with the given bytes as its chunk, one line per byte.
fn loaded(code: &[u8], constants: &[Value]) -> VM {
    let mut vm = VM::new();
    for &byte in code {
        vm.chunk.write_chunk(byte, 1);
    }
    for &constant in constants {
        vm.chunk.add_constant(constant);
    }
    vm
}

#[test]
fn new_machine_is_empty() {
    let vm = VM::new();
    assert_eq!(vm.ip, 0);
    assert_eq!(vm.stack_top, 0);
    assert_eq!(vm.chunk.len(), 0);
    assert_eq!(vm.strings.len(), 0);
    assert_eq!(vm.stack.len(), STACK_MAX);
    assert_eq!(STACK_MAX, 256);
    assert!(vm.pending().is_none());
}

#[test]
fn arithmetic_pauses_with_the_operands_on_the_stack() {
    let mut vm = VM::new();
    let signal = start(&mut vm, "6 - 2");
    match signal {
        Signal::Arithmetic { op, left, right } => {
            assert_eq!(op, ArithOp::Subtract);
            assert_eq!(left, 6f64.to_bits());
            assert_eq!(right, 2f64.to_bits());
        }
        other => panic!("expected a pause, got {:?}", other),
    }
    assert_eq!(signal.result(), None);
    assert_eq!(vm.stack_top, 2);
    assert!(matches!(vm.stack[0], Value::Number(b) if b == 6f64.to_bits()));
    assert!(matches!(vm.stack[1], Value::Number(b) if b == 2f64.to_bits()));
    assert_eq!(vm.chunk.index(vm.ip), OpCode::Subtract.to_byte());
    assert_eq!(
        vm.pending(),
        Some((ArithOp::Subtract, 6f64.to_bits(), 2f64.to_bits()))
    );

    let signal = vm.resume(4f64.to_bits());
    assert!(matches!(signal, Signal::Returned(Value::Number(b)) if b == 4f64.to_bits()));
    assert_eq!(signal.result(), Some(InterpretResult::Okay));
    assert_eq!(vm.stack_top, 0);
    assert_eq!(vm.chunk.len(), 0);
    assert_eq!(vm.ip, 0);
    assert!(vm.pending().is_none());
}

#[test]
fn the_host_result_is_what_goes_on() {
    let mut vm = VM::new();
    let signal = start(&mut vm, "1 + 2 > 10");
    assert!(matches!(signal, Signal::Arithmetic { op: ArithOp::Add, .. }));
    let signal = vm.resume(100f64.to_bits());
    assert!(matches!(signal, Signal::Returned(Value::Bool(true))));
}

#[test]
fn each_arithmetic_operation_is_named() {
    for (source, want) in [
        ("1 + 2", ArithOp::Add),
        ("1 - 2", ArithOp::Subtract),
        ("1 * 2", ArithOp::Multiply),
        ("1 / 2", ArithOp::Divide),
    ] {
        let mut vm = VM::new();
        match start(&mut vm, source) {
            Signal::Arithmetic { op, left, right } => {
                assert_eq!(op, want);
                assert_eq!((left, right), (1f64.to_bits(), 2f64.to_bits()));
            }
            other => panic!("expected a pause, got {:?}", other),
        }
    }
}

#[test]
fn a_new_interpretation_starts_afresh() {
    let mut vm = VM::new();
    let signal = start(&mut vm, "1 + 2");
    assert!(matches!(signal, Signal::Arithmetic { .. }));
    let signal = start(&mut vm, "nil");
    assert!(matches!(signal, Signal::Returned(Value::Nil)));
    assert_eq!(vm.stack_top, 0);
}

#[test]
fn negation_and_comparison_need_no_host() {
    let mut vm = VM::new();
    let signal = start(&mut vm, "-2.5");
    assert!(matches!(signal, Signal::Returned(Value::Number(b)) if b == (-2.5f64).to_bits()));
    let signal = start(&mut vm, "-2.5 < 1");
    assert!(matches!(signal, Signal::Returned(Value::Bool(true))));
    let signal = start(&mut vm, "2 >= 2 == true");
    assert!(matches!(signal, Signal::Returned(Value::Bool(true))));
}

#[test]
fn a_type_error_leaves_nothing_on_the_stack() {
    let mut vm = VM::new();
    let signal = start(&mut vm, "nil +\n true");
    assert!(matches!(
        signal,
        Signal::Failed { error: RuntimeError::OperandsMustBeNumbersOrStrings, line: 2 }
    ));
    assert_eq!(signal.result(), Some(InterpretResult::RuntimeErr));
    assert_eq!(vm.stack_top, 0);
    assert_eq!(vm.chunk.len(), 0);
    let signal = start(&mut vm, "\"a\" + 1");
    assert!(matches!(
        signal,
        Signal::Failed { error: RuntimeError::OperandsMustBeNumbersOrStrings, line: 1 }
    ));
    let signal = start(&mut vm, "\"a\" * \"b\"");
    assert!(matches!(
        signal,
        Signal::Failed { error: RuntimeError::OperandsMustBeNumbers, line: 1 }
    ));
}

/// Runs `tail` after an addition of two numbers whose result is 3.
fn after_addition(tail: &[u8], constants: &[Value]) -> (Signal, VM) {
    let mut code = vec![OpCode::Add.to_byte()];
    code.extend_from_slice(tail);
    let mut vm = loaded(&code, constants);
    vm.stack[0] = Value::Number(1f64.to_bits());
    vm.stack[1] = Value::Number(2f64.to_bits());
    vm.stack_top = 2;
    assert!(vm.pending().is_some());
    let signal = vm.resume(3f64.to_bits());
    (signal, vm)
}

#[test]
fn a_malformed_chunk_fails_without_a_message() {
    let add = OpCode::Add.to_byte();
    let constant = OpCode::Constant.to_byte();
    let cases: [(&[u8], &[Value]); 6] = [
        (&[], &[]),
        (&[200], &[]),
        (&[constant], &[Value::Nil]),
        (&[constant, 1], &[Value::Nil]),
        (&[add], &[]),
        (&[OpCode::Return.to_byte(), OpCode::Return.to_byte()], &[]),
    ];
    for (i, (tail, constants)) in cases.iter().enumerate() {
        let (signal, vm) = after_addition(tail, constants);
        if i == 0 {
            // past the last byte there is no line to name
            assert!(matches!(
                signal,
                Signal::Failed { error: RuntimeError::Malformed, line: 0 }
            ));
        } else if i < 5 {
            assert!(
                matches!(signal, Signal::Failed { error: RuntimeError::Malformed, line: 1 }),
                "case {i}: {signal:?}"
            );
        } else {
            assert!(matches!(signal, Signal::Returned(Value::Number(b)) if b == 3f64.to_bits()));
        }
        assert_eq!(signal.result().is_some(), true);
        assert_eq!(vm.stack_top, 0);
        assert_eq!(vm.chunk.len(), 0);
    }
    assert_eq!(RuntimeError::Malformed.message(), None);
}

#[test]
fn instructions_of_a_hand_written_chunk() {
    let nil = OpCode::Nil.to_byte();
    let ret = OpCode::Return.to_byte();
    let (signal, _) = after_addition(&[nil, OpCode::Equal.to_byte(), ret], &[]);
    assert!(matches!(signal, Signal::Returned(Value::Bool(false))));
    let (signal, _) = after_addition(&[OpCode::Not.to_byte(), ret], &[]);
    assert!(matches!(signal, Signal::Returned(Value::Bool(false))));
    let (signal, _) = after_addition(
        &[OpCode::Constant.to_byte(), 0, OpCode::Less.to_byte(), ret],
        &[Value::Number(4f64.to_bits())],
    );
    assert!(matches!(signal, Signal::Returned(Value::Bool(true))));
    let (signal, _) = after_addition(
        &[OpCode::Constant.to_byte(), 0, OpCode::Greater.to_byte(), ret],
        &[Value::Number(4f64.to_bits())],
    );
    assert!(matches!(signal, Signal::Returned(Value::Bool(false))));
    let (signal, vm) = after_addition(&[OpCode::True.to_byte(), OpCode::False.to_byte(), ret], &[]);
    assert!(matches!(signal, Signal::Returned(Value::Bool(false))));
    assert_eq!(vm.stack_top, 2);
}

#[test]
fn pending_tells_whether_the_machine_waits() {
    let mut vm = loaded(&[OpCode::Add.to_byte()], &[]);
    assert!(vm.pending().is_none());
    vm.stack[0] = Value::Number(1);
    vm.stack[1] = Value::Number(2);
    vm.stack_top = 2;
    assert_eq!(vm.pending(), Some((ArithOp::Add, 1, 2)));
    vm.stack[1] = Value::Nil;
    assert!(vm.pending().is_none());
    let mut vm = loaded(&[OpCode::Equal.to_byte()], &[]);
    vm.stack[0] = Value::Number(1);
    vm.stack[1] = Value::Number(2);
    vm.stack_top = 2;
    assert!(vm.pending().is_none());
}

#[test]
fn resume_runs_a_hand_written_chunk() {
    let mut vm = loaded(
        &[
            OpCode::Multiply.to_byte(),
            OpCode::Negate.to_byte(),
            OpCode::Return.to_byte(),
        ],
        &[],
    );
    vm.stack[0] = Value::Number(3f64.to_bits());
    vm.stack[1] = Value::Number(4f64.to_bits());
    vm.stack_top = 2;
    assert_eq!(
        vm.pending(),
        Some((ArithOp::Multiply, 3f64.to_bits(), 4f64.to_bits()))
    );
    let signal = vm.resume(12f64.to_bits());
    assert!(matches!(signal, Signal::Returned(Value::Number(b)) if b == (-12f64).to_bits()));
    assert_eq!(vm.stack_top, 0);

    let mut vm = loaded(&[OpCode::Add.to_byte(), 99], &[]);
    vm.stack[0] = Value::Number(1);
    vm.stack[1] = Value::Number(2);
    vm.stack_top = 2;
    let signal = vm.resume(3);
    assert!(matches!(
        signal,
        Signal::Failed { error: RuntimeError::Malformed, line: 1 }
    ));
    assert_eq!(vm.stack_top, 0);
}

#[test]
fn every_ending_has_its_result() {
    let mut vm = VM::new();
    let outcome = vm.interpret("(", &[]);
    assert_eq!(result_of(&outcome), Some(InterpretResult::CompileErr));
    let numbers = numbers_of("1 * 2");
    let outcome = vm.interpret("1 * 2", &numbers);
    assert_eq!(result_of(&outcome), None);
    let outcome = Ok(vm.resume(2f64.to_bits()));
    assert_eq!(result_of(&outcome), Some(InterpretResult::Okay));
    let outcome = vm.interpret("-nil", &[]);
    assert_eq!(result_of(&outcome), Some(InterpretResult::RuntimeErr));
}
