use rlox::compiler::{number_literals, Diagnostic};
use rlox::value::Value;
use rlox::vm::{frame, ArithOp, InterpretResult, RuntimeError, Signal, VM};

fn numbers_of(source: &str) -> Vec<u64> {
    number_literals(source)
        .iter()
        .map(|&(start, end)| source[start..end].parse::<f64>().unwrap().to_bits())
        .collect()
}

fn compute(op: ArithOp, left: u64, right: u64) -> u64 {
    let a = f64::from_bits(left);
    let b = f64::from_bits(right);
    let r = match op {
        ArithOp::Add => a + b,
        ArithOp::Subtract => a - b,
        ArithOp::Multiply => a * b,
        ArithOp::Divide => a / b,
    };
    r.to_bits()
}

fn run(vm: &mut VM, source: &str) -> Result<Signal, Diagnostic> {
    let numbers = numbers_of(source);
    let mut signal = vm.interpret(source, &numbers)?;
    loop {
        match signal {
            Signal::Arithmetic { op, left, right } => {
                assert!(vm.pending().is_some());
                signal = vm.resume(compute(op, left, right));
            }
            other => return Ok(other),
        }
    }
}

fn show(vm: &VM, value: Value) -> String {
    match value {
        Value::Number(bits) => format!("{}", f64::from_bits(bits)),
        other => String::from_utf8(other.text(&vm.strings).unwrap()).unwrap(),
    }
}

fn printed(source: &str) -> String {
    let mut vm = VM::new();
    match run(&mut vm, source) {
        Ok(Signal::Returned(value)) => show(&vm, value),
        Ok(other) => panic!("did not return: {:?}", other),
        Err(diagnostic) => panic!("did not compile: {:?}", diagnostic),
    }
}

#[test]
fn one_plus_two_prints_three() {
    assert_eq!(printed("1 + 2"), "3");
}

#[test]
fn negated_group_times_four_prints_minus_twelve() {
    assert_eq!(printed("-(1 + 2) * 4"), "-12");
}

#[test]
fn comparison_chain_prints_true() {
    assert_eq!(printed("!(5 - 4 > 3 * 2 == !nil)"), "true");
}

#[test]
fn string_concatenation_prints_string() {
    assert_eq!(printed("\"st\" + \"ring\""), "string");
}

#[test]
fn adding_nil_is_a_runtime_error() {
    let mut vm = VM::new();
    let signal = run(&mut vm, "1 + nil").unwrap();
    match signal {
        Signal::Failed { error, line } => {
            assert_eq!(error, RuntimeError::OperandsMustBeNumbersOrStrings);
            assert_eq!(
                error.message(),
                Some("Operands must be two numbers or two strings.")
            );
            assert_eq!(line, 1);
            assert_eq!(frame(line), b"[line 1] in script".to_vec());
        }
        other => panic!("expected a failure, got {:?}", other),
    }
    assert_eq!(signal.result(), Some(InterpretResult::RuntimeErr));
    assert_eq!(vm.stack_top, 0);
    assert_eq!(vm.chunk.len(), 0);
}

#[test]
fn missing_bracket_is_a_compile_error() {
    let mut vm = VM::new();
    let diagnostic = run(&mut vm, "(1 + 2").unwrap_err();
    assert_eq!(
        diagnostic.render(),
        b"[line 1] Error at end: Expect ')' after expression.".to_vec()
    );
    assert_eq!(vm.chunk.len(), 0);
}

#[test]
fn returned_signal_is_ok() {
    let mut vm = VM::new();
    let signal = run(&mut vm, "true").unwrap();
    assert_eq!(signal.result(), Some(InterpretResult::Okay));
    assert!(matches!(signal, Signal::Returned(Value::Bool(true))));
    assert_eq!(vm.stack_top, 0);
}

#[test]
fn number_literal_round_trips_through_display() {
    for literal in ["0", "1", "3.5", "12.25", "100", "0.1", "123456789", "1.7976931348623157"] {
        assert_eq!(printed(literal), literal);
    }
}

#[test]
fn strings_survive_from_one_interpretation_to_the_next() {
    let mut vm = VM::new();
    let first = run(&mut vm, "\"ab\" + \"cd\"").unwrap();
    let Signal::Returned(first) = first else {
        panic!("expected a value")
    };
    let second = run(&mut vm, "\"x\"").unwrap();
    let Signal::Returned(second) = second else {
        panic!("expected a value")
    };
    assert_eq!(show(&vm, first), "abcd");
    assert_eq!(show(&vm, second), "x");
    assert_eq!(vm.strings.len(), 4);
}

#[test]
fn equality_follows_the_kinds() {
    assert_eq!(printed("1 == 1"), "true");
    assert_eq!(printed("1 == 2"), "false");
    assert_eq!(printed("nil == nil"), "true");
    assert_eq!(printed("nil == false"), "false");
    assert_eq!(printed("\"a\" == \"a\""), "true");
    assert_eq!(printed("\"a\" == \"b\""), "false");
    assert_eq!(printed("\"1\" == 1"), "false");
    assert_eq!(printed("1 != 2"), "true");
    assert_eq!(printed("0 == -0"), "true");
    assert_eq!(printed("0 / 0 == 0 / 0"), "false");
}

#[test]
fn comparisons_of_numbers() {
    assert_eq!(printed("1 < 2"), "true");
    assert_eq!(printed("2 < 1"), "false");
    assert_eq!(printed("2 <= 2"), "true");
    assert_eq!(printed("2 >= 3"), "false");
    assert_eq!(printed("3 > 2"), "true");
    assert_eq!(printed("-1 < 0"), "true");
    assert_eq!(printed("-2 < -1"), "true");
    assert_eq!(printed("0.5 > 0.25"), "true");
}

#[test]
fn zero_and_the_empty_string_are_truthy() {
    assert_eq!(printed("!0"), "false");
    assert_eq!(printed("!\"\""), "false");
    assert_eq!(printed("!nil"), "true");
    assert_eq!(printed("!false"), "true");
    assert_eq!(printed("!true"), "false");
}

#[test]
fn operators_associate_to_the_left() {
    assert_eq!(printed("10 - 4 - 3"), "3");
    assert_eq!(printed("24 / 4 / 2"), "3");
    assert_eq!(printed("2 + 3 * 4"), "14");
    assert_eq!(printed("(2 + 3) * 4"), "20");
    assert_eq!(printed("--3"), "3");
    assert_eq!(printed("!!nil"), "false");
}

#[test]
fn type_errors_name_the_line() {
    let mut vm = VM::new();
    let signal = run(&mut vm, "1 +\n2 -\n\"a\"").unwrap();
    assert!(matches!(
        signal,
        Signal::Failed { error: RuntimeError::OperandsMustBeNumbers, line: 3 }
    ));
    let signal = run(&mut vm, "-\"a\"").unwrap();
    assert!(matches!(
        signal,
        Signal::Failed { error: RuntimeError::OperandMustBeNumber, line: 1 }
    ));
    let signal = run(&mut vm, "1 < nil").unwrap();
    assert!(matches!(
        signal,
        Signal::Failed { error: RuntimeError::OperandsMustBeNumbers, line: 1 }
    ));
    assert_eq!(RuntimeError::OperandsMustBeNumbers.message(), Some("Operands must be numbers."));
    assert_eq!(RuntimeError::OperandMustBeNumber.message(), Some("Operand must be a number."));
    assert_eq!(RuntimeError::StackOverflow.message(), Some("Stack overflow."));
    assert_eq!(RuntimeError::Malformed.message(), None);
}

#[test]
fn deep_nesting_overflows_the_stack() {
    let mut source = String::new();
    for _ in 0..256 {
        source.push_str("nil == (");
    }
    source.push_str("nil");
    for _ in 0..256 {
        source.push(')');
    }
    let mut vm = VM::new();
    let signal = run(&mut vm, &source).unwrap();
    assert!(matches!(
        signal,
        Signal::Failed { error: RuntimeError::StackOverflow, line: 1 }
    ));
    assert_eq!(vm.stack_top, 0);

    let mut source = String::new();
    for _ in 0..255 {
        source.push_str("nil == (");
    }
    source.push_str("nil");
    for _ in 0..255 {
        source.push(')');
    }
    assert_eq!(printed(&source), "false");
}

#[test]
fn one_constant_too_many_is_a_compile_error() {
    let mut source = String::from("0");
    for _ in 0..255 {
        source.push_str(" + 0");
    }
    assert_eq!(printed(&source), "0");
    source.push_str(" + 0");
    let mut vm = VM::new();
    let diagnostic = run(&mut vm, &source).unwrap_err();
    assert_eq!(
        diagnostic.render(),
        b"[line 1] Error at end: Too many constants in one chunk.".to_vec()
    );
}
