//! The virtual machine: a fetch, decode and dispatch loop over a chunk,
//! working on a value stack of fixed capacity.
//!
//! The machine decides everything but the four arithmetic operations on
//! doubles. When it reaches one with two numbers on top of the stack it
//! stops and reports the operation and its operands; the host computes the
//! result and hands it to [`VM::resume`], which replaces the operands by it
//! and runs on.
use crate::chunk::{Chunk, OpCode};
use crate::compiler::{compile_spec, number_spans, origin, start_state, Diagnostic, Parser};
use crate::number::{negated, number_greater, number_less, number_lt, number_negate};
use crate::object::{Obj, StringObj, StringPool};
use crate::text::{append_bytes, append_decimal, decimal};
use crate::value::{all_live, Value};
use vstd::prelude::*;
use vstd::string::StringSliceAdditionalSpecFns;

verus! {

/// The capacity of the value stack.
pub const STACK_MAX: usize = 256;

/// How an interpretation ended.
#[derive(Copy, Clone, Debug, PartialEq, Eq)]
pub enum InterpretResult {
    Okay,
    CompileErr,
    RuntimeErr,
}

/// The arithmetic operations that the host computes.
#[derive(Copy, Clone, Debug, PartialEq, Eq)]
pub enum ArithOp {
    Add,
    Subtract,
    Multiply,
    Divide,
}

/// Why execution failed.
#[derive(Copy, Clone, Debug, PartialEq, Eq)]
pub enum RuntimeError {
    /// A comparison, subtraction, multiplication or division met an operand
    /// that is no number.
    OperandsMustBeNumbers,
    /// An addition met operands that are neither two numbers nor two
    /// strings.
    OperandsMustBeNumbersOrStrings,
    /// A negation met an operand that is no number.
    OperandMustBeNumber,
    /// A push met a full stack.
    StackOverflow,
    /// The chunk is no program: a byte that is no instruction, a missing
    /// operand byte, a constant index past the pool, too few values on the
    /// stack, or no `Return` before the end.
    Malformed,
}

/// What the machine reports when it stops.
#[derive(Copy, Clone, Debug)]
pub enum Signal {
    /// It waits for the result of `left op right`, two doubles.
    Arithmetic { op: ArithOp, left: u64, right: u64 },
    /// `Return` popped this value, which is to be printed.
    Returned(Value),
    /// Execution failed at the instruction that came from `line`.
    Failed { error: RuntimeError, line: usize },
}

/// The state that instructions act on.
pub struct Machine {
    /// The offset of the next instruction.
    pub ip: nat,
    /// The value stack, bottom first.
    pub stack: Seq<Value>,
    /// The buffers of the string pool.
    pub pool: Seq<Seq<u8>>,
}

/// The effect of one instruction.
pub enum Step {
    /// Execution goes on in this state.
    Next(Machine),
    /// An arithmetic instruction found two numbers, which stay on the stack.
    Pause { op: ArithOp, left: u64, right: u64 },
    /// `Return` popped a value and left this state.
    Return(Value, Machine),
    /// The instruction failed.
    Fail(RuntimeError),
}

/// The stack without its top `n` values.
pub open spec fn below(stack: Seq<Value>, n: nat) -> Seq<Value> {
    stack.subrange(0, stack.len() - n)
}

/// The value `distance` places under the top of the stack.
pub open spec fn peeked(stack: Seq<Value>, distance: nat) -> Value {
    stack[stack.len() - 1 - distance]
}

/// The state after a push, or the overflow.
pub open spec fn pushing(m: Machine, ip: nat, stack: Seq<Value>, value: Value) -> Step {
    if stack.len() >= STACK_MAX {
        Step::Fail(RuntimeError::StackOverflow)
    } else {
        Step::Next(Machine { ip, stack: stack.push(value), pool: m.pool })
    }
}

/// The arithmetic operation of an instruction, if it is one.
pub open spec fn arithmetic(op: OpCode) -> Option<ArithOp> {
    match op {
        OpCode::Add => Some(ArithOp::Add),
        OpCode::Subtract => Some(ArithOp::Subtract),
        OpCode::Multiply => Some(ArithOp::Multiply),
        OpCode::Divide => Some(ArithOp::Divide),
        _ => None,
    }
}

/// What an instruction with two operands does to them, the lower one
/// first.
pub open spec fn binary_step(m: Machine, op: OpCode, a: Value, b: Value) -> Step {
    let rest = below(m.stack, 2);
    let next = m.ip + 1;
    match op {
        OpCode::Equal => Step::Next(
            Machine { ip: next, stack: rest.push(Value::Bool(a.same(b, m.pool))), pool: m.pool },
        ),
        OpCode::Greater => match (a, b) {
            (Value::Number(x), Value::Number(y)) => Step::Next(
                Machine { ip: next, stack: rest.push(Value::Bool(number_lt(y, x))), pool: m.pool },
            ),
            _ => Step::Fail(RuntimeError::OperandsMustBeNumbers),
        },
        OpCode::Less => match (a, b) {
            (Value::Number(x), Value::Number(y)) => Step::Next(
                Machine { ip: next, stack: rest.push(Value::Bool(number_lt(x, y))), pool: m.pool },
            ),
            _ => Step::Fail(RuntimeError::OperandsMustBeNumbers),
        },
        OpCode::Add => match (a, b) {
            (Value::Number(x), Value::Number(y)) => Step::Pause {
                op: ArithOp::Add,
                left: x,
                right: y,
            },
            (Value::Obj(Obj::StringObj(s)), Value::Obj(Obj::StringObj(t))) => Step::Next(
                Machine {
                    ip: next,
                    stack: rest.push(
                        Value::Obj(
                            Obj::StringObj(
                                StringObj {
                                    index: m.pool.len() as usize,
                                    len: (s.len + t.len) as usize,
                                },
                            ),
                        ),
                    ),
                    pool: m.pool.push(s.bytes(m.pool) + t.bytes(m.pool)),
                },
            ),
            _ => Step::Fail(RuntimeError::OperandsMustBeNumbersOrStrings),
        },
        _ => match (a, b) {
            (Value::Number(x), Value::Number(y)) => Step::Pause {
                op: arithmetic(op).unwrap(),
                left: x,
                right: y,
            },
            _ => Step::Fail(RuntimeError::OperandsMustBeNumbers),
        },
    }
}

/// The effect of the instruction at `m.ip`.
pub open spec fn step(code: Seq<u8>, constants: Seq<Value>, m: Machine) -> Step {
    if m.ip >= code.len() {
        Step::Fail(RuntimeError::Malformed)
    } else {
        match OpCode::decode(code[m.ip as int]) {
            None => Step::Fail(RuntimeError::Malformed),
            Some(OpCode::Constant) => {
                if m.ip + 1 >= code.len() || code[m.ip + 1 as int] >= constants.len() {
                    Step::Fail(RuntimeError::Malformed)
                } else {
                    pushing(m, m.ip + 2, m.stack, constants[code[m.ip + 1 as int] as int])
                }
            },
            Some(OpCode::Nil) => pushing(m, m.ip + 1, m.stack, Value::Nil),
            Some(OpCode::True) => pushing(m, m.ip + 1, m.stack, Value::Bool(true)),
            Some(OpCode::False) => pushing(m, m.ip + 1, m.stack, Value::Bool(false)),
            Some(OpCode::Not) => {
                if m.stack.len() < 1 {
                    Step::Fail(RuntimeError::Malformed)
                } else {
                    Step::Next(
                        Machine {
                            ip: m.ip + 1,
                            stack: below(m.stack, 1).push(Value::Bool(peeked(m.stack, 0).falsey())),
                            pool: m.pool,
                        },
                    )
                }
            },
            Some(OpCode::Negate) => {
                if m.stack.len() < 1 {
                    Step::Fail(RuntimeError::Malformed)
                } else {
                    match peeked(m.stack, 0) {
                        Value::Number(x) => Step::Next(
                            Machine {
                                ip: m.ip + 1,
                                stack: below(m.stack, 1).push(Value::Number(negated(x))),
                                pool: m.pool,
                            },
                        ),
                        _ => Step::Fail(RuntimeError::OperandMustBeNumber),
                    }
                }
            },
            Some(OpCode::Return) => {
                if m.stack.len() < 1 {
                    Step::Fail(RuntimeError::Malformed)
                } else {
                    Step::Return(
                        peeked(m.stack, 0),
                        Machine { ip: m.ip + 1, stack: below(m.stack, 1), pool: m.pool },
                    )
                }
            },
            Some(op) => {
                if m.stack.len() < 2 {
                    Step::Fail(RuntimeError::Malformed)
                } else {
                    binary_step(m, op, peeked(m.stack, 1), peeked(m.stack, 0))
                }
            },
        }
    }
}

/// Where a run stops, and in which state.
pub enum Halt {
    /// Before an arithmetic instruction, in the state that holds its
    /// operands.
    Paused { op: ArithOp, left: u64, right: u64, at: Machine },
    /// After `Return`.
    Returned(Value, Machine),
    /// At the instruction at offset `at.ip`, in the state that it found.
    Failed(RuntimeError, Machine),
}

/// Runs instructions from `m` until one stops the machine.
pub open spec fn run_spec(code: Seq<u8>, constants: Seq<Value>, m: Machine) -> Halt
    decreases code.len() - m.ip,
{
    match step(code, constants, m) {
        Step::Next(next) => run_spec(code, constants, next),
        Step::Pause { op, left, right } => Halt::Paused { op, left, right, at: m },
        Step::Return(value, next) => Halt::Returned(value, next),
        Step::Fail(error) => Halt::Failed(error, m),
    }
}

/// The state in which a paused machine goes on: the two operands give way
/// to the result, and the arithmetic instruction is behind it.
pub open spec fn resumed(m: Machine, result: u64) -> Machine {
    Machine { ip: m.ip + 1, stack: below(m.stack, 2).push(Value::Number(result)), pool: m.pool }
}

/// The line that the byte at `offset` came from, 0 where there is none.
pub open spec fn line_at(lines: Seq<usize>, offset: nat) -> usize {
    if offset < lines.len() {
        lines[offset as int]
    } else {
        0
    }
}

/// What the machine reports for a run that stopped as `halt` says.
pub open spec fn signal_of(halt: Halt, lines: Seq<usize>) -> Signal {
    match halt {
        Halt::Paused { op, left, right, at } => Signal::Arithmetic { op, left, right },
        Halt::Returned(value, _) => Signal::Returned(value),
        Halt::Failed(error, at) => Signal::Failed { error, line: line_at(lines, at.ip) },
    }
}

/// The state in which a run that stopped as `halt` says leaves the machine:
/// a failure resets the stack.
pub open spec fn state_of(halt: Halt) -> Machine {
    match halt {
        Halt::Paused { op, left, right, at } => at,
        Halt::Returned(_, after) => after,
        Halt::Failed(_, at) => Machine { ip: at.ip, stack: Seq::empty(), pool: at.pool },
    }
}

/// The virtual machine. It owns the chunk it runs, the value stack and the
/// string pool, which it keeps from one interpretation to the next.
pub struct VM {
    pub chunk: Chunk,
    pub ip: usize,
    pub stack: [Value; STACK_MAX],
    pub stack_top: usize,
    pub strings: StringPool,
}

impl RuntimeError {
    /// The message for the user, or `None` for a malformed chunk, which is
    /// a fault of the compiler and not of the program.
    pub fn message(&self) -> (r: Option<&'static str>)
        ensures
            r is None <==> *self == RuntimeError::Malformed,
            *self == RuntimeError::OperandsMustBeNumbers ==> r == Some("Operands must be numbers."),
            *self == RuntimeError::OperandsMustBeNumbersOrStrings ==> r == Some(
                "Operands must be two numbers or two strings.",
            ),
            *self == RuntimeError::OperandMustBeNumber ==> r == Some("Operand must be a number."),
            *self == RuntimeError::StackOverflow ==> r == Some("Stack overflow."),
    {
        match self {
            RuntimeError::OperandsMustBeNumbers => Some("Operands must be numbers."),
            RuntimeError::OperandsMustBeNumbersOrStrings => Some(
                "Operands must be two numbers or two strings.",
            ),
            RuntimeError::OperandMustBeNumber => Some("Operand must be a number."),
            RuntimeError::StackOverflow => Some("Stack overflow."),
            RuntimeError::Malformed => None,
        }
    }
}

impl Signal {
    /// The result of the interpretation, once it has ended: `None` while
    /// the machine waits for an arithmetic result.
    pub fn result(&self) -> (r: Option<InterpretResult>)
        ensures
            *self is Arithmetic ==> r is None,
            *self is Returned ==> r == Some(InterpretResult::Okay),
            *self is Failed ==> r == Some(InterpretResult::RuntimeErr),
    {
        match self {
            Signal::Arithmetic { .. } => None,
            Signal::Returned(_) => Some(InterpretResult::Okay),
            Signal::Failed { .. } => Some(InterpretResult::RuntimeErr),
        }
    }
}

/// The result of an interpretation, once it has ended: a source that did
/// not compile is a compile error, a failed run a runtime error, a
/// returned value a success. While the machine waits there is none.
pub fn result_of(outcome: &Result<Signal, Diagnostic>) -> (r: Option<InterpretResult>)
    ensures
        r == match *outcome {
            Err(_) => Some(InterpretResult::CompileErr),
            Ok(Signal::Arithmetic { .. }) => None,
            Ok(Signal::Returned(_)) => Some(InterpretResult::Okay),
            Ok(Signal::Failed { .. }) => Some(InterpretResult::RuntimeErr),
        },
{
    match outcome {
        Err(_) => Some(InterpretResult::CompileErr),
        Ok(signal) => signal.result(),
    }
}

/// The line that follows the message of a runtime error.
pub open spec fn frame_spec(line: usize) -> Seq<u8> {
    "[line ".spec_bytes() + decimal(line as nat) + "] in script".spec_bytes()
}

/// The line that follows the message of a runtime error: `[line L] in
/// script`, with the line of the instruction that failed.
pub fn frame(line: usize) -> (text: Vec<u8>)
    ensures
        text@ == frame_spec(line),
{
    let mut text: Vec<u8> = Vec::new();
    append_bytes(&mut text, "[line ".as_bytes());
    append_decimal(&mut text, line);
    append_bytes(&mut text, "] in script".as_bytes());
    assert(text@ =~= frame_spec(line));
    text
}

/// Whether a value counts as false: only `nil` and `false` do.
pub fn is_falsey(value: Value) -> (r: bool)
    ensures
        r == value.falsey(),
        r <==> (value == Value::Nil || value == Value::Bool(false)),
{
    match value {
        Value::Nil => true,
        Value::Bool(value) => !value,
        _ => false,
    }
}

impl VM {
    /// The values on the stack, bottom first.
    pub open spec fn stack_view(&self) -> Seq<Value> {
        self.stack@.subrange(0, self.stack_top as int)
    }

    /// The state that instructions act on.
    pub open spec fn machine(&self) -> Machine {
        Machine { ip: self.ip as nat, stack: self.stack_view(), pool: self.strings@ }
    }

    /// The stack is within its capacity, the chunk has a line for every
    /// byte, and every string on the stack or among the constants is alive
    /// in the pool.
    pub open spec fn wf(&self) -> bool {
        &&& self.stack_top <= STACK_MAX
        &&& self.chunk.wf()
        &&& all_live(self.stack_view(), self.strings@)
        &&& all_live(self.chunk.constants@, self.strings@)
    }

    /// Whether the chunk is the one with these bytes, lines and constants.
    pub open spec fn holds(&self, code: Seq<u8>, lines: Seq<usize>, constants: Seq<Value>) -> bool {
        &&& self.chunk.code@ == code
        &&& self.chunk.lines@ == lines
        &&& self.chunk.constants@ == constants
    }

    /// Whether the chunk is a well-formed program from where the machine
    /// stands: the instructions to come find their operands on the stack,
    /// and `Return` finds exactly one value.
    pub open spec fn on_track(&self) -> bool {
        balanced(
            self.chunk.code@,
            self.chunk.constants@.len(),
            self.ip as nat,
            self.stack_top as nat,
        )
    }

    /// What a machine that was on track reports, and how it rests: it
    /// never finds its chunk malformed; where it waits, it is on track
    /// still; and where it has returned, the stack is empty.
    pub open spec fn kept_track(&self, signal: Signal) -> bool {
        match signal {
            Signal::Arithmetic { .. } => self.on_track(),
            Signal::Returned(_) => self.stack_top == 0,
            Signal::Failed { error, .. } => error != RuntimeError::Malformed,
        }
    }

    /// Whether the machine stands before an arithmetic instruction with two
    /// numbers on top of the stack.
    pub open spec fn awaits(&self) -> bool {
        step(self.chunk.code@, self.chunk.constants@, self.machine()) is Pause
    }

    /// A machine with an empty chunk, an empty stack and an empty pool.
    pub fn new() -> (r: Self)
        ensures
            r.wf(),
            r.ip == 0,
            r.stack_view().len() == 0,
            r.strings@.len() == 0,
            r.chunk.code@.len() == 0,
            r.chunk.constants@.len() == 0,
    {
        let mut vm = VM {
            chunk: Chunk::new(),
            ip: 0,
            stack: [Value::Nil;STACK_MAX],
            stack_top: 0,
            strings: StringPool::new(),
        };
        vm.reset_stack();
        vm
    }

    fn reset_stack(&mut self)
        ensures
            final(self).stack_top == 0,
            final(self).stack_view() == Seq::<Value>::empty(),
            final(self).chunk == old(self).chunk,
            final(self).ip == old(self).ip,
            final(self).strings == old(self).strings,
    {
        self.stack_top = 0;
        assert(self.stack_view() =~= Seq::<Value>::empty());
    }

    /// Ends a failed run: notes the line of the instruction at `at` and
    /// resets the stack.
    fn runtime_error(&mut self, error: RuntimeError, at: usize) -> (signal: Signal)
        ensures
            signal == (Signal::Failed { error, line: line_at(old(self).chunk.lines@, at as nat) }),
            final(self).machine() == (Machine {
                ip: at as nat,
                stack: Seq::empty(),
                pool: old(self).strings@,
            }),
            final(self).chunk == old(self).chunk,
            final(self).strings == old(self).strings,
            final(self).stack_top == 0,
    {
        let line = if at < self.chunk.lines.len() {
            self.chunk.lines[at]
        } else {
            0
        };
        self.ip = at;
        self.reset_stack();
        Signal::Failed { error, line }
    }

    fn push(&mut self, value: Value)
        requires
            old(self).stack_top < STACK_MAX,
        ensures
            final(self).stack_top == old(self).stack_top + 1,
            final(self).stack_view() == old(self).stack_view().push(value),
            final(self).chunk == old(self).chunk,
            final(self).ip == old(self).ip,
            final(self).strings == old(self).strings,
    {
        self.stack[self.stack_top] = value;
        self.stack_top = self.stack_top + 1;
        assert(self.stack_view() =~= old(self).stack_view().push(value));
    }

    fn pop(&mut self) -> (value: Value)
        requires
            0 < old(self).stack_top <= STACK_MAX,
        ensures
            value == peeked(old(self).stack_view(), 0),
            final(self).stack_top == old(self).stack_top - 1,
            final(self).stack_view() == below(old(self).stack_view(), 1),
            final(self).chunk == old(self).chunk,
            final(self).ip == old(self).ip,
            final(self).strings == old(self).strings,
    {
        self.stack_top = self.stack_top - 1;
        assert(self.stack_view() =~= below(old(self).stack_view(), 1));
        self.stack[self.stack_top]
    }

    fn peek(&self, distance: usize) -> (value: Value)
        requires
            distance < self.stack_top <= STACK_MAX,
        ensures
            value == peeked(self.stack_view(), distance as nat),
    {
        self.stack[self.stack_top - 1 - distance]
    }

    fn read_byte(&mut self) -> (byte: u8)
        requires
            old(self).ip < old(self).chunk.code@.len(),
        ensures
            byte == old(self).chunk.code@[old(self).ip as int],
            final(self).ip == old(self).ip + 1,
            final(self).chunk == old(self).chunk,
            final(self).stack == old(self).stack,
            final(self).stack_top == old(self).stack_top,
            final(self).strings == old(self).strings,
    {
        let len = self.chunk.len();
        let byte = self.chunk.index(self.ip);
        self.ip = self.ip + 1;
        byte
    }

    fn read_constant(&mut self) -> (value: Value)
        requires
            old(self).ip < old(self).chunk.code@.len(),
            old(self).chunk.code@[old(self).ip as int] < old(self).chunk.constants@.len(),
        ensures
            value == old(self).chunk.constants@[old(self).chunk.code@[old(self).ip as int] as int],
            final(self).ip == old(self).ip + 1,
            final(self).chunk == old(self).chunk,
            final(self).stack == old(self).stack,
            final(self).stack_top == old(self).stack_top,
            final(self).strings == old(self).strings,
    {
        let constant = self.read_byte() as usize;
        self.chunk.constants[constant]
    }

    /// Replaces the two strings on top of the stack by their concatenation,
    /// in a new buffer of the pool.
    fn concatenate(&mut self, a: StringObj, b: StringObj)
        requires
            old(self).wf(),
            old(self).stack_top >= 2,
            peeked(old(self).stack_view(), 1) == Value::Obj(Obj::StringObj(a)),
            peeked(old(self).stack_view(), 0) == Value::Obj(Obj::StringObj(b)),
        ensures
            final(self).wf(),
            final(self).chunk == old(self).chunk,
            final(self).ip == old(self).ip,
            final(self).strings@ == old(self).strings@.push(
                a.bytes(old(self).strings@) + b.bytes(old(self).strings@),
            ),
            final(self).stack_view() == below(old(self).stack_view(), 2).push(
                Value::Obj(
                    Obj::StringObj(
                        StringObj {
                            index: old(self).strings@.len() as usize,
                            len: (a.len + b.len) as usize,
                        },
                    ),
                ),
            ),
    {
        assert(peeked(self.stack_view(), 1).live_in(self.strings@));
        assert(peeked(self.stack_view(), 0).live_in(self.strings@));
        self.pop();
        self.pop();
        let joined = self.strings.concatenate(a, b);
        self.push(Value::string(joined.index, joined.len));
        assert(self.stack_view() =~= below(old(self).stack_view(), 2).push(
            Value::Obj(Obj::StringObj(joined)),
        ));
    }
    /// The two numbers on top of the stack, the lower one first, if both
    /// values there are numbers.
    fn numbers_on_top(&self) -> (r: Option<(u64, u64)>)
        requires
            2 <= self.stack_top <= STACK_MAX,
        ensures
            r == match (peeked(self.stack_view(), 1), peeked(self.stack_view(), 0)) {
                (Value::Number(x), Value::Number(y)) => Some((x, y)),
                _ => None,
            },
    {
        let b = self.peek(0);
        let a = self.peek(1);
        match (a, b) {
            (Value::Number(x), Value::Number(y)) => Some((x, y)),
            _ => None,
        }
    }

    /// Runs the chunk from the instruction at `ip` until `Return`, a
    /// failure, or an arithmetic instruction that has its two numbers. At
    /// such an instruction the machine stays where it is, the operands on
    /// the stack.
    fn run(&mut self) -> (signal: Signal)
        requires
            old(self).wf(),
        ensures
            final(self).wf(),
            final(self).chunk == old(self).chunk,
            signal == signal_of(
                run_spec(old(self).chunk.code@, old(self).chunk.constants@, old(self).machine()),
                old(self).chunk.lines@,
            ),
            final(self).machine() == state_of(
                run_spec(old(self).chunk.code@, old(self).chunk.constants@, old(self).machine()),
            ),
    {
        loop
            invariant
                self.wf(),
                self.chunk == old(self).chunk,
                run_spec(self.chunk.code@, self.chunk.constants@, self.machine()) == run_spec(
                    old(self).chunk.code@,
                    old(self).chunk.constants@,
                    old(self).machine(),
                ),
            decreases self.chunk.code@.len() - self.ip,
        {
            let at = self.ip;
            let ghost before = self.machine();
            let ghost code = self.chunk.code@;
            let ghost constants = self.chunk.constants@;
            if at >= self.chunk.len() {
                return self.runtime_error(RuntimeError::Malformed, at);
            }
            let instruction = OpCode::from_byte(self.read_byte());
            match instruction {
                None => {
                    return self.runtime_error(RuntimeError::Malformed, at);
                },
                Some(opcode) => match opcode {
                    OpCode::Constant => {
                        if self.ip >= self.chunk.len() {
                            return self.runtime_error(RuntimeError::Malformed, at);
                        }
                        if self.chunk.index(self.ip) as usize >= self.chunk.constants.len() {
                            return self.runtime_error(RuntimeError::Malformed, at);
                        }
                        if self.stack_top >= STACK_MAX {
                            return self.runtime_error(RuntimeError::StackOverflow, at);
                        }
                        let constant = self.read_constant();
                        self.push(constant);
                        assert(step(code, constants, before) == Step::Next(self.machine()));
                    },
                    OpCode::Nil | OpCode::True | OpCode::False => {
                        if self.stack_top >= STACK_MAX {
                            return self.runtime_error(RuntimeError::StackOverflow, at);
                        }
                        let value = match opcode {
                            OpCode::Nil => Value::Nil,
                            OpCode::True => Value::Bool(true),
                            _ => Value::Bool(false),
                        };
                        self.push(value);
                        assert(step(code, constants, before) == Step::Next(self.machine()));
                    },
                    OpCode::Equal => {
                        if self.stack_top < 2 {
                            return self.runtime_error(RuntimeError::Malformed, at);
                        }
                        assert(peeked(before.stack, 0).live_in(before.pool));
                        assert(peeked(before.stack, 1).live_in(before.pool));
                        let b = self.pop();
                        let a = self.pop();
                        let equal = a.equals(&b, &self.strings);
                        self.push(Value::Bool(equal));
                        assert(below(below(before.stack, 1), 1) =~= below(before.stack, 2));
                        assert(step(code, constants, before) == Step::Next(self.machine()));
                    },
                    OpCode::Greater | OpCode::Less => {
                        if self.stack_top < 2 {
                            return self.runtime_error(RuntimeError::Malformed, at);
                        }
                        match self.numbers_on_top() {
                            Some((a, b)) => {
                                self.pop();
                                self.pop();
                                let holds = match opcode {
                                    OpCode::Greater => number_greater(a, b),
                                    _ => number_less(a, b),
                                };
                                self.push(Value::Bool(holds));
                                assert(below(below(before.stack, 1), 1) =~= below(before.stack, 2));
                                assert(step(code, constants, before) == Step::Next(self.machine()));
                            },
                            None => {
                                return self.runtime_error(RuntimeError::OperandsMustBeNumbers, at);
                            },
                        }
                    },
                    OpCode::Add => {
                        if self.stack_top < 2 {
                            return self.runtime_error(RuntimeError::Malformed, at);
                        }
                        let b = self.peek(0);
                        let a = self.peek(1);
                        match (a, b) {
                            (Value::Number(left), Value::Number(right)) => {
                                self.ip = at;
                                assert(self.machine() == before);
                                return Signal::Arithmetic { op: ArithOp::Add, left, right };
                            },
                            (Value::Obj(Obj::StringObj(a)), Value::Obj(Obj::StringObj(b))) => {
                                self.concatenate(a, b);
                                assert(step(code, constants, before) == Step::Next(self.machine()));
                            },
                            _ => {
                                return self.runtime_error(
                                    RuntimeError::OperandsMustBeNumbersOrStrings,
                                    at,
                                );
                            },
                        }
                    },
                    OpCode::Subtract | OpCode::Multiply | OpCode::Divide => {
                        if self.stack_top < 2 {
                            return self.runtime_error(RuntimeError::Malformed, at);
                        }
                        match self.numbers_on_top() {
                            Some((left, right)) => {
                                let op = match opcode {
                                    OpCode::Subtract => ArithOp::Subtract,
                                    OpCode::Multiply => ArithOp::Multiply,
                                    _ => ArithOp::Divide,
                                };
                                self.ip = at;
                                assert(self.machine() == before);
                                return Signal::Arithmetic { op, left, right };
                            },
                            None => {
                                return self.runtime_error(RuntimeError::OperandsMustBeNumbers, at);
                            },
                        }
                    },
                    OpCode::Not => {
                        if self.stack_top < 1 {
                            return self.runtime_error(RuntimeError::Malformed, at);
                        }
                        let value = self.pop();
                        self.push(Value::Bool(is_falsey(value)));
                        assert(step(code, constants, before) == Step::Next(self.machine()));
                    },
                    OpCode::Negate => {
                        if self.stack_top < 1 {
                            return self.runtime_error(RuntimeError::Malformed, at);
                        }
                        match self.peek(0) {
                            Value::Number(value) => {
                                self.pop();
                                self.push(Value::Number(number_negate(value)));
                                assert(step(code, constants, before) == Step::Next(self.machine()));
                            },
                            _ => {
                                return self.runtime_error(RuntimeError::OperandMustBeNumber, at);
                            },
                        }
                    },
                    OpCode::Return => {
                        if self.stack_top < 1 {
                            return self.runtime_error(RuntimeError::Malformed, at);
                        }
                        let value = self.pop();
                        return Signal::Returned(value);
                    },
                },
            }
        }
    }
    /// Whether the machine is in the state in which a run that stopped as
    /// `halt` says leaves it. A paused machine keeps its chunk, with these
    /// bytes, lines and constants; one that has ended has cleared it.
    pub open spec fn rests(
        &self,
        code: Seq<u8>,
        lines: Seq<usize>,
        constants: Seq<Value>,
        halt: Halt,
    ) -> bool {
        if halt is Paused {
            self.holds(code, lines, constants) && self.machine() == state_of(halt)
        } else {
            &&& self.holds(Seq::empty(), Seq::empty(), Seq::empty())
            &&& self.ip == 0
            &&& self.stack_view() == state_of(halt).stack
            &&& self.strings@ == state_of(halt).pool
        }
    }

    /// Clears the chunk once a run has ended.
    fn conclude(&mut self, signal: Signal)
        requires
            old(self).wf(),
        ensures
            final(self).wf(),
            final(self).stack == old(self).stack,
            final(self).stack_top == old(self).stack_top,
            final(self).strings == old(self).strings,
            signal is Arithmetic ==> final(self).chunk == old(self).chunk && final(self).ip == old(
                self,
            ).ip,
            !(signal is Arithmetic) ==> final(self).ip == 0 && final(self).holds(
                Seq::empty(),
                Seq::empty(),
                Seq::empty(),
            ),
    {
        match signal {
            Signal::Arithmetic { .. } => {},
            _ => {
                self.chunk.clear();
                self.ip = 0;
                assert(self.chunk.code@ =~= Seq::<u8>::empty());
                assert(self.chunk.lines@ =~= Seq::<usize>::empty());
                assert(self.chunk.constants@ =~= Seq::<Value>::empty());
            },
        }
    }

    /// The arithmetic that the machine waits for: the operation and its two
    /// operands, or `None` where it does not wait.
    pub fn pending(&self) -> (r: Option<(ArithOp, u64, u64)>)
        requires
            self.wf(),
        ensures
            r is Some <==> self.awaits(),
            r is Some ==> step(self.chunk.code@, self.chunk.constants@, self.machine()) == (
            Step::Pause { op: r.unwrap().0, left: r.unwrap().1, right: r.unwrap().2 }),
    {
        if self.ip >= self.chunk.len() || self.stack_top < 2 {
            return None;
        }
        let op = match OpCode::from_byte(self.chunk.index(self.ip)) {
            Some(OpCode::Add) => ArithOp::Add,
            Some(OpCode::Subtract) => ArithOp::Subtract,
            Some(OpCode::Multiply) => ArithOp::Multiply,
            Some(OpCode::Divide) => ArithOp::Divide,
            _ => {
                return None;
            },
        };
        match self.numbers_on_top() {
            Some((left, right)) => Some((op, left, right)),
            None => None,
        }
    }

    /// Goes on after an arithmetic instruction: replaces its two operands
    /// by `result`, the bits of the double that the host computed, and runs
    /// until the machine stops again.
    pub fn resume(&mut self, result: u64) -> (signal: Signal)
        requires
            old(self).wf(),
            old(self).awaits(),
        ensures
            final(self).wf(),
            signal == signal_of(
                run_spec(
                    old(self).chunk.code@,
                    old(self).chunk.constants@,
                    resumed(old(self).machine(), result),
                ),
                old(self).chunk.lines@,
            ),
            final(self).rests(
                old(self).chunk.code@,
                old(self).chunk.lines@,
                old(self).chunk.constants@,
                run_spec(
                    old(self).chunk.code@,
                    old(self).chunk.constants@,
                    resumed(old(self).machine(), result),
                ),
            ),
            old(self).on_track() ==> final(self).kept_track(signal),
    {
        proof {
            if self.on_track() {
                lemma_balanced_run(
                    self.chunk.code@,
                    self.chunk.constants@,
                    resumed(self.machine(), result),
                );
            }
        }
        let len = self.chunk.len();
        self.pop();
        self.pop();
        self.push(Value::Number(result));
        self.ip = self.ip + 1;
        assert(below(below(old(self).stack_view(), 1), 1) =~= below(old(self).stack_view(), 2));
        assert(self.machine() == resumed(old(self).machine(), result));
        let signal = self.run();
        self.conclude(signal);
        signal
    }
    /// The state in which a run of a newly compiled chunk starts: at its
    /// first byte, with an empty stack.
    pub open spec fn entry(pool: Seq<Seq<u8>>) -> Machine {
        Machine { ip: 0, stack: Seq::empty(), pool }
    }

    /// Compiles `source` into a new chunk and runs it on an empty stack.
    /// `numbers` holds the value of each number token of the source, in
    /// the order of the tokens.
    ///
    /// A source with an error is not run: the chunk is dropped and the
    /// first error comes back. Otherwise the machine runs until `Return`,
    /// a failure, or an arithmetic instruction whose result the host has
    /// to supply through `resume`. Strings made on the way stay in the
    /// pool.
    pub fn interpret(&mut self, source: &str, numbers: &[u64]) -> (r: Result<Signal, Diagnostic>)
        requires
            old(self).wf(),
            source.spec_bytes().len() < usize::MAX,
            numbers@.len() == number_spans(source.spec_bytes(), origin()).len(),
        ensures
            final(self).wf(),
            ({
                let compiled = compile_spec(
                    source.spec_bytes(),
                    numbers@,
                    start_state(Seq::empty(), Seq::empty(), Seq::empty(), old(self).strings@),
                );
                let halt = run_spec(compiled.code, compiled.constants, VM::entry(compiled.pool));
                if compiled.had_error {
                    &&& r is Err
                    &&& Some(r->Err_0@) == compiled.report
                    &&& final(self).holds(Seq::empty(), Seq::empty(), Seq::empty())
                    &&& final(self).machine() == VM::entry(compiled.pool)
                } else {
                    &&& r == Ok::<Signal, Diagnostic>(signal_of(halt, compiled.lines))
                    &&& final(self).rests(compiled.code, compiled.lines, compiled.constants, halt)
                }
            }),
            r is Ok ==> final(self).kept_track(r->Ok_0),
    {
        self.chunk.clear();
        self.reset_stack();
        self.ip = 0;
        assert(self.chunk.code@ =~= Seq::<u8>::empty());
        assert(self.chunk.lines@ =~= Seq::<usize>::empty());
        assert(self.chunk.constants@ =~= Seq::<Value>::empty());
        let mut parser = Parser::new(source, numbers, &mut self.chunk, &mut self.strings);
        let ok = parser.compile();
        let diagnostic = parser.diagnostic;
        if !ok {
            self.chunk.clear();
            assert(self.chunk.code@ =~= Seq::<u8>::empty());
            assert(self.chunk.lines@ =~= Seq::<usize>::empty());
            assert(self.chunk.constants@ =~= Seq::<Value>::empty());
            return Err(diagnostic.unwrap());
        }
        self.ip = 0;
        proof {
            lemma_balanced_run(self.chunk.code@, self.chunk.constants@, self.machine());
        }

        let signal = self.run();
        self.conclude(signal);
        Ok(signal)
    }
}

/// Whether the instructions from offset `ip` on, met with `depth` values on
/// the stack, always find the operands they pop and reach a `Return` that
/// finds exactly one value. A chunk is a well-formed program when this
/// holds from offset 0 with an empty stack.
pub open spec fn balanced(code: Seq<u8>, constants: nat, ip: nat, depth: nat) -> bool
    decreases code.len() - ip,
{
    if ip >= code.len() {
        false
    } else {
        match OpCode::decode(code[ip as int]) {
            None => false,
            Some(OpCode::Constant) => ip + 1 < code.len() && code[ip + 1 as int] < constants
                && balanced(code, constants, ip + 2, depth + 1),
            Some(OpCode::Nil) | Some(OpCode::True) | Some(OpCode::False) => balanced(
                code,
                constants,
                ip + 1,
                depth + 1,
            ),
            Some(OpCode::Not) | Some(OpCode::Negate) => depth >= 1 && balanced(
                code,
                constants,
                ip + 1,
                depth,
            ),
            Some(OpCode::Return) => depth == 1,
            Some(_) => depth >= 2 && balanced(code, constants, ip + 1, (depth - 1) as nat),
        }
    }
}

/// In a well-formed program the stack is empty after `Return`. More
/// closely: a run that starts where the program is balanced never meets a
/// malformed instruction; when it returns, no value is left on the stack;
/// and when it pauses, the program is balanced again in the state in which
/// the machine resumes, whatever the result of the arithmetic.
pub proof fn lemma_balanced_run(code: Seq<u8>, constants: Seq<Value>, m: Machine)
    requires
        balanced(code, constants.len(), m.ip, m.stack.len()),
    ensures
        match run_spec(code, constants, m) {
            Halt::Returned(_, after) => after.stack.len() == 0,
            Halt::Paused { op, left, right, at } => {
                &&& balanced(code, constants.len(), at.ip, at.stack.len())
                &&& forall|result: u64|
                    balanced(
                        code,
                        constants.len(),
                        (#[trigger] resumed(at, result)).ip,
                        resumed(at, result).stack.len(),
                    )
            },
            Halt::Failed(error, _) => error != RuntimeError::Malformed,
        },
    decreases code.len() - m.ip,
{
    match step(code, constants, m) {
        Step::Next(next) => {
            lemma_balanced_run(code, constants, next);
        },
        _ => {},
    }
}

/// An arithmetic instruction looks at its operands before it removes them.
/// Where the machine pauses, the operands it reports are the two values on
/// top of the stack, the left one below the right one, and resuming takes
/// exactly these two off and puts the result in their place. Where it adds
/// two strings itself, the same two values give way to the concatenation.
/// Every value below them stays.
pub proof fn lemma_operands_peeked_then_popped(
    code: Seq<u8>,
    constants: Seq<Value>,
    m: Machine,
    result: u64,
)
    requires
        m.ip < code.len(),
        OpCode::decode(code[m.ip as int]) is Some,
        arithmetic(OpCode::decode(code[m.ip as int]).unwrap()) is Some,
    ensures
        match step(code, constants, m) {
            Step::Pause { op, left, right } => {
                &&& m.stack.len() >= 2
                &&& Some(op) == arithmetic(OpCode::decode(code[m.ip as int]).unwrap())
                &&& peeked(m.stack, 1) == Value::Number(left)
                &&& peeked(m.stack, 0) == Value::Number(right)
                &&& resumed(m, result).stack == below(m.stack, 2).push(Value::Number(result))
                &&& resumed(m, result).stack.len() == m.stack.len() - 1
            },
            Step::Next(next) => {
                &&& m.stack.len() >= 2
                &&& peeked(m.stack, 1) is Obj
                &&& peeked(m.stack, 0) is Obj
                &&& next.stack.len() == m.stack.len() - 1
                &&& below(next.stack, 1) == below(m.stack, 2)
                &&& peeked(next.stack, 0) is Obj
                &&& next.pool == m.pool.push(
                    peeked(m.stack, 1)->Obj_0->StringObj_0.bytes(m.pool) + peeked(
                        m.stack,
                        0,
                    )->Obj_0->StringObj_0.bytes(m.pool),
                )
            },
            Step::Fail(error) => error != RuntimeError::StackOverflow,
            Step::Return(_, _) => false,
        },
{
    match step(code, constants, m) {
        Step::Next(next) => {
            assert(below(next.stack, 1) =~= below(m.stack, 2));
        },
        _ => {},
    }
}

} // verus!
