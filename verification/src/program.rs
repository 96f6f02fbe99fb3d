//! Well-formed programs: what the compiler promises of the chunks it writes.
//!
//! Whatever the source, the bytes of a compiled chunk are whole
//! instructions, and every constant index in them names a constant of the
//! chunk. For a source without errors the instructions also keep the stack
//! in balance: each finds the operands it pops, and `Return` finds exactly
//! one value.
use crate::chunk::OpCode;
use crate::compiler::{
    advance_spec, apply_spec, binary_spec, compile_spec, consume_spec, emit_byte_spec,
    emit_constant_spec, expression_spec, infix_spec, infix_step_spec, lemma_advance_measure,
    lemma_scan_on, make_constant_spec, measure, parse_precedence_spec, rule_of, ParseFn,
    Precedence, State,
};
use crate::object::{Obj, StringObj};
use crate::scanner::TokenType;
use crate::value::Value;
use crate::vm::balanced;
use vstd::prelude::*;
use vstd::string::StringSliceAdditionalSpecFns;

verus! {

/// Whether the bytes from offset `from` on are whole instructions whose
/// constant indices are below `constants`.
pub open spec fn encoded_from(code: Seq<u8>, constants: nat, from: nat) -> bool
    decreases code.len() - from,
{
    if from >= code.len() {
        from == code.len()
    } else {
        match OpCode::decode(code[from as int]) {
            None => false,
            Some(OpCode::Constant) => from + 1 < code.len() && code[from + 1 as int] < constants
                && encoded_from(code, constants, from + 2),
            Some(_) => encoded_from(code, constants, from + 1),
        }
    }
}

/// What an instruction without operand byte does to a stack of `depth`
/// values: the new depth, or `None` where it does not find its operands.
/// `Return` ends a program and is part of no expression.
pub open spec fn effect(op: OpCode, depth: nat) -> Option<nat> {
    match op {
        OpCode::Constant | OpCode::Return => None,
        OpCode::Nil | OpCode::True | OpCode::False => Some(depth + 1),
        OpCode::Not | OpCode::Negate => if depth >= 1 {
            Some(depth)
        } else {
            None
        },
        _ => if depth >= 2 {
            Some((depth - 1) as nat)
        } else {
            None
        },
    }
}

/// The depth of the stack after the instructions from offset `from` on,
/// begun with `depth` values: `None` where the bytes are not whole
/// instructions with constant indices below `constants`, where one of them
/// does not find its operands, or where one of them is `Return`.
pub open spec fn depth_after(code: Seq<u8>, constants: nat, from: nat, depth: nat) -> Option<nat>
    decreases code.len() - from,
{
    if from >= code.len() {
        if from == code.len() {
            Some(depth)
        } else {
            None
        }
    } else {
        match OpCode::decode(code[from as int]) {
            None => None,
            Some(OpCode::Constant) => if from + 1 < code.len() && code[from + 1 as int]
                < constants {
                depth_after(code, constants, from + 2, depth + 1)
            } else {
                None
            },
            Some(op) => match effect(op, depth) {
                Some(next) => depth_after(code, constants, from + 1, next),
                None => None,
            },
        }
    }
}

/// Whole instructions stay whole when an instruction without operand byte
/// is written after them, and when constants are added.
pub proof fn lemma_encoded_push(code: Seq<u8>, constants: nat, more: nat, from: nat, op: OpCode)
    requires
        encoded_from(code, constants, from),
        constants <= more,
        op != OpCode::Constant,
    ensures
        encoded_from(code.push(op.byte()), more, from),
    decreases code.len() - from,
{
    let longer = code.push(op.byte());
    if from < code.len() {
        assert(longer[from as int] == code[from as int]);
        match OpCode::decode(code[from as int]) {
            Some(OpCode::Constant) => {
                assert(longer[from + 1 as int] == code[from + 1 as int]);
                lemma_encoded_push(code, constants, more, from + 2, op);
            },
            Some(_) => {
                lemma_encoded_push(code, constants, more, from + 1, op);
            },
            None => {},
        }
    } else {
        assert(longer[from as int] == op.byte());
        assert(encoded_from(longer, more, from + 1));
    }
}

/// Whole instructions stay whole when `Constant` and an index below the
/// number of constants are written after them.
pub proof fn lemma_encoded_constant(code: Seq<u8>, constants: nat, more: nat, from: nat, index: u8)
    requires
        encoded_from(code, constants, from),
        constants <= more,
        index < more,
    ensures
        encoded_from(code.push(OpCode::Constant.byte()).push(index), more, from),
    decreases code.len() - from,
{
    let longer = code.push(OpCode::Constant.byte()).push(index);
    if from < code.len() {
        assert(longer[from as int] == code[from as int]);
        match OpCode::decode(code[from as int]) {
            Some(OpCode::Constant) => {
                assert(longer[from + 1 as int] == code[from + 1 as int]);
                lemma_encoded_constant(code, constants, more, from + 2, index);
            },
            Some(_) => {
                lemma_encoded_constant(code, constants, more, from + 1, index);
            },
            None => {},
        }
    } else {
        assert(longer[from as int] == OpCode::Constant.byte());
        assert(longer[from + 1 as int] == index);
        assert(encoded_from(longer, more, from + 2));
    }
}

/// An instruction written after others acts on the depth they leave.
pub proof fn lemma_depth_push(
    code: Seq<u8>,
    constants: nat,
    more: nat,
    from: nat,
    depth: nat,
    op: OpCode,
)
    requires
        depth_after(code, constants, from, depth) is Some,
        constants <= more,
        op != OpCode::Constant,
    ensures
        depth_after(code.push(op.byte()), more, from, depth) == effect(
            op,
            depth_after(code, constants, from, depth).unwrap(),
        ),
    decreases code.len() - from,
{
    let longer = code.push(op.byte());
    if from < code.len() {
        assert(longer[from as int] == code[from as int]);
        match OpCode::decode(code[from as int]) {
            Some(OpCode::Constant) => {
                assert(longer[from + 1 as int] == code[from + 1 as int]);
                lemma_depth_push(code, constants, more, from + 2, depth + 1, op);
            },
            Some(first) => {
                lemma_depth_push(code, constants, more, from + 1, effect(first, depth).unwrap(), op);
            },
            None => {},
        }
    } else {
        assert(longer[from as int] == op.byte());
        match effect(op, depth) {
            Some(next) => {
                assert(depth_after(longer, more, from + 1, next) == Some(next));
            },
            None => {},
        }
    }
}

/// `Constant` with an index below the number of constants, written after
/// other instructions, adds one value to the depth they leave.
pub proof fn lemma_depth_constant(
    code: Seq<u8>,
    constants: nat,
    more: nat,
    from: nat,
    depth: nat,
    index: u8,
)
    requires
        depth_after(code, constants, from, depth) is Some,
        constants <= more,
        index < more,
    ensures
        depth_after(code.push(OpCode::Constant.byte()).push(index), more, from, depth) == Some(
            depth_after(code, constants, from, depth).unwrap() + 1,
        ),
    decreases code.len() - from,
{
    let longer = code.push(OpCode::Constant.byte()).push(index);
    if from < code.len() {
        assert(longer[from as int] == code[from as int]);
        match OpCode::decode(code[from as int]) {
            Some(OpCode::Constant) => {
                assert(longer[from + 1 as int] == code[from + 1 as int]);
                lemma_depth_constant(code, constants, more, from + 2, depth + 1, index);
            },
            Some(first) => {
                lemma_depth_constant(
                    code,
                    constants,
                    more,
                    from + 1,
                    effect(first, depth).unwrap(),
                    index,
                );
            },
            None => {},
        }
    } else {
        assert(longer[from as int] == OpCode::Constant.byte());
        assert(longer[from + 1 as int] == index);
        assert(depth_after(longer, more, from + 2, depth + 1) == Some(depth + 1));
    }
}

/// Instructions that leave exactly one value, followed by `Return`, are a
/// well-formed program.
pub proof fn lemma_depth_return(code: Seq<u8>, constants: nat, from: nat, depth: nat)
    requires
        depth_after(code, constants, from, depth) == Some(1nat),
    ensures
        balanced(code.push(OpCode::Return.byte()), constants, from, depth),
    decreases code.len() - from,
{
    let longer = code.push(OpCode::Return.byte());
    if from < code.len() {
        assert(longer[from as int] == code[from as int]);
        match OpCode::decode(code[from as int]) {
            Some(OpCode::Constant) => {
                assert(longer[from + 1 as int] == code[from + 1 as int]);
                lemma_depth_return(code, constants, from + 2, depth + 1);
            },
            Some(first) => {
                lemma_depth_return(code, constants, from + 1, effect(first, depth).unwrap());
            },
            None => {},
        }
    } else {
        assert(longer[from as int] == OpCode::Return.byte());
    }
}

/// Instructions that keep the stack in balance are whole instructions.
pub proof fn lemma_depth_encoded(code: Seq<u8>, constants: nat, from: nat, depth: nat)
    requires
        depth_after(code, constants, from, depth) is Some,
    ensures
        encoded_from(code, constants, from),
    decreases code.len() - from,
{
    if from < code.len() {
        match OpCode::decode(code[from as int]) {
            Some(OpCode::Constant) => {
                lemma_depth_encoded(code, constants, from + 2, depth + 1);
            },
            Some(first) => {
                lemma_depth_encoded(code, constants, from + 1, effect(first, depth).unwrap());
            },
            None => {},
        }
    }
}

/// The parser stands within the source, what it has written are whole
/// instructions with their constants, and it has noted the error that put
/// it in panic mode.
pub open spec fn sound(src: Seq<u8>, s: State) -> bool {
    &&& s.cursor.current <= src.len()
    &&& encoded_from(s.code, s.constants.len(), 0)
    &&& s.panic_mode ==> s.had_error
}

/// The depth of the stack after the instructions that the parser has
/// written, run on an empty stack.
pub open spec fn height(s: State) -> Option<nat> {
    depth_after(s.code, s.constants.len(), 0, 0)
}

/// What every step of the parser keeps: it stays sound, it does not forget
/// an error, and it does not go back in the source.
pub open spec fn carries(src: Seq<u8>, before: State, after: State) -> bool {
    &&& sound(src, after)
    &&& before.had_error ==> after.had_error
    &&& measure(src, after) <= measure(src, before)
}

/// The step has written nothing.
pub open spec fn untouched(before: State, after: State) -> bool {
    after.code == before.code && after.constants == before.constants
}

/// Unless it met an error, the step has written instructions that push
/// one value.
pub open spec fn pushes(before: State, after: State) -> bool {
    !after.had_error && height(before) is Some ==> height(after) == Some(
        height(before).unwrap() + 1,
    )
}

/// Unless it met an error, the step has written instructions that take a
/// value from the stack and leave one in its place.
pub open spec fn replaces(before: State, after: State) -> bool {
    !after.had_error && height(before) is Some && height(before).unwrap() >= 1 ==> height(after)
        == height(before)
}

/// Advancing writes nothing.
pub proof fn lemma_advance(src: Seq<u8>, s: State)
    requires
        sound(src, s),
    ensures
        carries(src, s, advance_spec(src, s)),
        untouched(s, advance_spec(src, s)),
        advance_spec(src, s).previous == s.current,
        s.current.kind != TokenType::Eof ==> measure(src, advance_spec(src, s)) < measure(src, s),
{
    lemma_advance_measure(src, s);
    lemma_scan_on(
        src,
        State {
            previous: s.current,
            seen: if s.current.kind == TokenType::Number {
                s.seen + 1
            } else {
                s.seen
            },
            ..s
        },
    );
}

/// Consuming a token writes nothing.
pub proof fn lemma_consume(src: Seq<u8>, s: State, kind: TokenType, message: Seq<u8>)
    requires
        sound(src, s),
    ensures
        carries(src, s, consume_spec(src, s, kind, message)),
        untouched(s, consume_spec(src, s, kind, message)),
{
    lemma_advance(src, s);
}

/// Writing an instruction without operand byte keeps the parser sound and
/// acts on the depth.
pub proof fn lemma_emit(src: Seq<u8>, s: State, op: OpCode)
    requires
        sound(src, s),
        op != OpCode::Constant,
    ensures
        carries(src, s, emit_byte_spec(s, op.byte())),
        height(s) is Some ==> height(emit_byte_spec(s, op.byte())) == effect(op, height(s).unwrap()),
{
    lemma_encoded_push(s.code, s.constants.len(), s.constants.len(), 0, op);
    if height(s) is Some {
        lemma_depth_push(s.code, s.constants.len(), s.constants.len(), 0, 0, op);
    }
}

/// Writing a constant keeps the parser sound and pushes one value.
pub proof fn lemma_emit_constant(src: Seq<u8>, s: State, value: Value)
    requires
        sound(src, s),
    ensures
        carries(src, s, emit_constant_spec(s, value)),
        pushes(s, emit_constant_spec(s, value)),
{
    let made = make_constant_spec(s, value).0;
    let index = make_constant_spec(s, value).1;
    let more = s.constants.len() + 1;
    assert(made.constants.len() == more);
    assert(made.code == s.code);
    lemma_encoded_constant(s.code, s.constants.len(), more, 0, index);
    if height(s) is Some {
        lemma_depth_constant(s.code, s.constants.len(), more, 0, 0, index);
    }
}

/// Parsing an expression keeps the parser sound and, unless it meets an
/// error, writes instructions that push one value: the value of the
/// expression.
pub proof fn lemma_parse_precedence(src: Seq<u8>, numbers: Seq<u64>, s: State, min: Precedence)
    requires
        sound(src, s),
    ensures
        carries(src, s, parse_precedence_spec(src, numbers, s, min)),
        pushes(s, parse_precedence_spec(src, numbers, s, min)),
    decreases measure(src, s), 0nat,
{
    lemma_advance(src, s);
    let advanced = advance_spec(src, s);
    match rule_of(advanced.previous.kind).prefix {
        None => {},
        Some(rule) => {
            lemma_prefix(src, numbers, advanced, rule);
            let operand = apply_spec(src, numbers, advanced, rule);
            lemma_infix(src, numbers, operand, min);
        },
    }
}

/// Parsing the operators after an operand keeps the parser sound and,
/// unless it meets an error, leaves one value where the operand was.
pub proof fn lemma_infix(src: Seq<u8>, numbers: Seq<u64>, s: State, min: Precedence)
    requires
        sound(src, s),
    ensures
        carries(src, s, infix_spec(src, numbers, s, min)),
        replaces(s, infix_spec(src, numbers, s, min)),
    decreases measure(src, s), 5nat,
{
    if 0 < min.level() <= rule_of(s.current.kind).precedence.level() {
        lemma_infix_step(src, numbers, s);
        let applied = infix_step_spec(src, numbers, s);
        lemma_infix(src, numbers, applied, min);
    }
}

/// One operator with its right operand.
pub proof fn lemma_infix_step(src: Seq<u8>, numbers: Seq<u64>, s: State)
    requires
        sound(src, s),
        rule_of(s.current.kind).precedence.level() >= 1,
    ensures
        carries(src, s, infix_step_spec(src, numbers, s)),
        replaces(s, infix_step_spec(src, numbers, s)),
        measure(src, infix_step_spec(src, numbers, s)) < measure(src, s),
    decreases measure(src, s), 4nat,
{
    lemma_advance(src, s);
    let advanced = advance_spec(src, s);
    match rule_of(advanced.previous.kind).infix {
        None => {},
        Some(rule) => {
            lemma_binary(src, numbers, advanced);
        },
    }
}

/// What a rule does at the start of an expression pushes one value.
pub proof fn lemma_prefix(src: Seq<u8>, numbers: Seq<u64>, s: State, rule: ParseFn)
    requires
        sound(src, s),
        rule_of(s.previous.kind).prefix == Some(rule),
    ensures
        carries(src, s, apply_spec(src, numbers, s, rule)),
        pushes(s, apply_spec(src, numbers, s, rule)),
    decreases measure(src, s), 3nat,
{
    match rule {
        ParseFn::Grouping => {
            lemma_expression(src, numbers, s);
            lemma_consume(
                src,
                expression_spec(src, numbers, s),
                TokenType::RightParen,
                "Expect ')' after expression.".spec_bytes(),
            );
        },
        ParseFn::Unary => {
            lemma_parse_precedence(src, numbers, s, Precedence::Unary);
            let operand = parse_precedence_spec(src, numbers, s, Precedence::Unary);
            lemma_emit(src, operand, OpCode::Negate);
            lemma_emit(src, operand, OpCode::Not);
        },
        ParseFn::Binary => {},
        ParseFn::Number => {
            lemma_emit_constant(src, s, Value::Number(numbers[s.seen - 1]));
        },
        ParseFn::String => {
            lemma_emit_constant(
                src,
                State { pool: s.pool.push(s.previous.text), ..s },
                Value::Obj(
                    Obj::StringObj(
                        StringObj {
                            index: s.pool.len() as usize,
                            len: s.previous.text.len() as usize,
                        },
                    ),
                ),
            );
        },
        ParseFn::Literal => {
            lemma_emit(src, s, OpCode::False);
            lemma_emit(src, s, OpCode::Nil);
            lemma_emit(src, s, OpCode::True);
        },
    }
}

/// A binary operator, after its left operand: the right operand is pushed,
/// and the operator's instructions leave one value for the two.
pub proof fn lemma_binary(src: Seq<u8>, numbers: Seq<u64>, s: State)
    requires
        sound(src, s),
        rule_of(s.previous.kind).infix == Some(ParseFn::Binary),
    ensures
        carries(src, s, binary_spec(src, numbers, s)),
        replaces(s, binary_spec(src, numbers, s)),
    decreases measure(src, s), 2nat,
{
    let min = rule_of(s.previous.kind).precedence.above();
    lemma_parse_precedence(src, numbers, s, min);
    let right = parse_precedence_spec(src, numbers, s, min);
    lemma_emit(src, right, OpCode::Add);
    lemma_emit(src, right, OpCode::Subtract);
    lemma_emit(src, right, OpCode::Multiply);
    lemma_emit(src, right, OpCode::Divide);
    lemma_emit(src, right, OpCode::Equal);
    lemma_emit(src, right, OpCode::Less);
    lemma_emit(src, right, OpCode::Greater);
    lemma_emit(src, emit_byte_spec(right, OpCode::Equal.byte()), OpCode::Not);
    lemma_emit(src, emit_byte_spec(right, OpCode::Less.byte()), OpCode::Not);
    lemma_emit(src, emit_byte_spec(right, OpCode::Greater.byte()), OpCode::Not);
}

/// An expression pushes one value.
pub proof fn lemma_expression(src: Seq<u8>, numbers: Seq<u64>, s: State)
    requires
        sound(src, s),
    ensures
        carries(src, s, expression_spec(src, numbers, s)),
        pushes(s, expression_spec(src, numbers, s)),
    decreases measure(src, s), 1nat,
{
    lemma_parse_precedence(src, numbers, s, Precedence::Assignment);
}

/// What the compiler writes is a program. Whatever the source, the bytes
/// after compiling are whole instructions, and every constant index in
/// them names a constant of the chunk. Compiled without error into an
/// empty chunk, the instructions are a well-formed program: the stack
/// holds what each of them pops, and exactly one value when `Return` comes.
pub proof fn lemma_compile(src: Seq<u8>, numbers: Seq<u64>, s: State)
    requires
        sound(src, s),
    ensures
        encoded_from(
            compile_spec(src, numbers, s).code,
            compile_spec(src, numbers, s).constants.len(),
            0,
        ),
        s.had_error ==> compile_spec(src, numbers, s).had_error,
        !compile_spec(src, numbers, s).had_error && s.code.len() == 0 ==> balanced(
            compile_spec(src, numbers, s).code,
            compile_spec(src, numbers, s).constants.len(),
            0,
            0,
        ),
{
    lemma_advance(src, s);
    let first = advance_spec(src, s);
    lemma_expression(src, numbers, first);
    let parsed = expression_spec(src, numbers, first);
    lemma_consume(src, parsed, TokenType::Eof, "Expected end of expression.".spec_bytes());
    let ended = consume_spec(src, parsed, TokenType::Eof, "Expected end of expression.".spec_bytes());
    lemma_encoded_push(ended.code, ended.constants.len(), ended.constants.len(), 0, OpCode::Return);
    if !compile_spec(src, numbers, s).had_error && s.code.len() == 0 {
        assert(height(s) == Some(0nat));
        assert(height(ended) == Some(1nat));
        lemma_depth_return(ended.code, ended.constants.len(), 0, 0);
    }
}

} // verus!
