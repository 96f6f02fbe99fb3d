//! The compiler: a Pratt parser that reads tokens on demand and writes
//! bytecode as it goes, without building a tree.
//!
//! Every token kind has a rule: what to do when it starts an expression,
//! what to do when it follows one, and how tightly it binds. The parser
//! climbs the precedence ladder with these rules alone.
//!
//! The value of a number literal is the host's to compute. The parser is
//! given the values of the number tokens of the source, in their order,
//! and takes the next one for each number token it meets.
use crate::chunk::{Chunk, OpCode, MAX_CONSTANTS};
use crate::object::{Obj, StringObj, StringPool};
use crate::program::{encoded_from, lemma_compile};
use crate::scanner::{
    lemma_scan_progress, scan_spec, Cursor, Scan, Scanner, Token, TokenType,
};
use crate::text::{append_bytes, append_decimal, decimal};
use crate::value::{all_live, Value};
use crate::vm::balanced;
use vstd::prelude::*;
use vstd::slice::{slice_subrange, slice_to_vec};
use vstd::string::StringSliceAdditionalSpecFns;

verus! {

/// The precedence levels, lowest first.
#[derive(Copy, Clone, Debug, PartialEq, Eq, Structural)]
pub enum Precedence {
    Lowest,
    Assignment,
    Or,
    And,
    Equality,
    Comparison,
    Term,
    Factor,
    Unary,
    Call,
    Primary,
}

/// What a rule does with the token it belongs to.
#[derive(Copy, Clone, Debug, PartialEq, Eq, Structural)]
pub enum ParseFn {
    Grouping,
    Unary,
    Binary,
    Number,
    String,
    Literal,
}

/// The rule of a token kind: what it does at the start of an expression,
/// what it does after an operand, and how tightly it binds as an operator.
#[derive(Copy, Clone, Debug)]
pub struct ParseRule {
    pub prefix: Option<ParseFn>,
    pub infix: Option<ParseFn>,
    pub precedence: Precedence,
}

/// Where in the source an error was found.
#[derive(Debug)]
pub enum Place {
    /// At the end of the source.
    End,
    /// At a token that the scanner could not read; its message says where.
    Nowhere,
    /// At the token with this text.
    Lexeme(Vec<u8>),
}

/// A compile error: the line, the place and the message.
#[derive(Debug)]
pub struct Diagnostic {
    pub line: usize,
    pub place: Place,
    pub message: Vec<u8>,
}

/// A place, by its content.
pub enum PlaceView {
    End,
    Nowhere,
    Lexeme(Seq<u8>),
}

/// A compile error, by its content.
pub struct Report {
    pub line: usize,
    pub place: PlaceView,
    pub message: Seq<u8>,
}

/// A token, by its content.
pub struct Lexed {
    pub kind: TokenType,
    pub text: Seq<u8>,
    pub line: usize,
}

/// Everything the parser knows and has written.
pub struct State {
    /// Where the scanner stands.
    pub cursor: Cursor,
    pub current: Lexed,
    pub previous: Lexed,
    pub had_error: bool,
    pub panic_mode: bool,
    /// The first error, the only one that is reported.
    pub report: Option<Report>,
    /// How many number tokens have been taken so far.
    pub seen: nat,
    pub code: Seq<u8>,
    pub lines: Seq<usize>,
    pub constants: Seq<Value>,
    /// The buffers of the string pool.
    pub pool: Seq<Seq<u8>>,
}

impl Precedence {
    /// The height of the level on the ladder.
    pub open spec fn level(self) -> nat {
        match self {
            Precedence::Lowest => 0,
            Precedence::Assignment => 1,
            Precedence::Or => 2,
            Precedence::And => 3,
            Precedence::Equality => 4,
            Precedence::Comparison => 5,
            Precedence::Term => 6,
            Precedence::Factor => 7,
            Precedence::Unary => 8,
            Precedence::Call => 9,
            Precedence::Primary => 10,
        }
    }

    /// The level above, and the highest for the highest.
    pub open spec fn above(self) -> Precedence {
        match self {
            Precedence::Lowest => Precedence::Assignment,
            Precedence::Assignment => Precedence::Or,
            Precedence::Or => Precedence::And,
            Precedence::And => Precedence::Equality,
            Precedence::Equality => Precedence::Comparison,
            Precedence::Comparison => Precedence::Term,
            Precedence::Term => Precedence::Factor,
            Precedence::Factor => Precedence::Unary,
            Precedence::Unary => Precedence::Call,
            Precedence::Call => Precedence::Primary,
            Precedence::Primary => Precedence::Primary,
        }
    }
}

/// The rule table.
pub open spec fn rule_of(kind: TokenType) -> ParseRule {
    match kind {
        TokenType::LeftParen => ParseRule {
            prefix: Some(ParseFn::Grouping),
            infix: None,
            precedence: Precedence::Lowest,
        },
        TokenType::Minus => ParseRule {
            prefix: Some(ParseFn::Unary),
            infix: Some(ParseFn::Binary),
            precedence: Precedence::Term,
        },
        TokenType::Plus => ParseRule {
            prefix: None,
            infix: Some(ParseFn::Binary),
            precedence: Precedence::Term,
        },
        TokenType::Slash | TokenType::Star => ParseRule {
            prefix: None,
            infix: Some(ParseFn::Binary),
            precedence: Precedence::Factor,
        },
        TokenType::Bang => ParseRule {
            prefix: Some(ParseFn::Unary),
            infix: None,
            precedence: Precedence::Lowest,
        },
        TokenType::BangEqual | TokenType::EqualEqual => ParseRule {
            prefix: None,
            infix: Some(ParseFn::Binary),
            precedence: Precedence::Equality,
        },
        TokenType::Greater | TokenType::GreaterEqual | TokenType::Less | TokenType::LessEqual => ParseRule {
            prefix: None,
            infix: Some(ParseFn::Binary),
            precedence: Precedence::Comparison,
        },
        TokenType::Number => ParseRule {
            prefix: Some(ParseFn::Number),
            infix: None,
            precedence: Precedence::Lowest,
        },
        TokenType::String => ParseRule {
            prefix: Some(ParseFn::String),
            infix: None,
            precedence: Precedence::Lowest,
        },
        TokenType::False | TokenType::True | TokenType::Nil => ParseRule {
            prefix: Some(ParseFn::Literal),
            infix: None,
            precedence: Precedence::Lowest,
        },
        _ => ParseRule { prefix: None, infix: None, precedence: Precedence::Lowest },
    }
}

/// The content of the token that a scan gave.
pub open spec fn lexed(scan: Scan) -> Lexed {
    Lexed { kind: scan.kind, text: scan.text, line: scan.next.line as usize }
}

/// The place of an error at `token`.
pub open spec fn place_of(token: Lexed) -> PlaceView {
    match token.kind {
        TokenType::Eof => PlaceView::End,
        TokenType::Error => PlaceView::Nowhere,
        _ => PlaceView::Lexeme(token.text),
    }
}

/// How far the parser is from the end of the source: the bytes not yet
/// scanned, and one more while the token in hand is not `Eof`.
pub open spec fn measure(src: Seq<u8>, s: State) -> nat {
    let ahead: nat = if s.current.kind != TokenType::Eof {
        1
    } else {
        0
    };
    if s.cursor.current <= src.len() {
        (src.len() - s.cursor.current + ahead) as nat
    } else {
        ahead
    }
}

/// Reports an error at `token`, unless one has been reported before.
pub open spec fn error_at_spec(s: State, token: Lexed, message: Seq<u8>) -> State {
    if s.panic_mode {
        s
    } else {
        State {
            panic_mode: true,
            had_error: true,
            report: Some(Report { line: token.line, place: place_of(token), message }),
            ..s
        }
    }
}

/// Reports an error at the current token.
pub open spec fn error_spec(s: State, message: Seq<u8>) -> State {
    error_at_spec(s, s.current, message)
}

/// Scans until a token comes that is no error token, reporting each error
/// token on the way.
pub open spec fn scan_on(src: Seq<u8>, s: State) -> State
    decreases src.len() - s.cursor.current,
    when s.cursor.current <= src.len()
{
    let token = lexed(scan_spec(src, s.cursor));
    let scanned = State { cursor: scan_spec(src, s.cursor).next, current: token, ..s };
    if token.kind == TokenType::Error {
        proof {
            lemma_scan_progress(src, s.cursor);
        }
        scan_on(src, error_at_spec(scanned, token, token.text))
    } else {
        scanned
    }
}

/// Moves to the next token: the current one becomes the previous one.
pub open spec fn advance_spec(src: Seq<u8>, s: State) -> State {
    scan_on(
        src,
        State {
            previous: s.current,
            seen: if s.current.kind == TokenType::Number {
                s.seen + 1
            } else {
                s.seen
            },
            ..s
        },
    )
}

/// Moves on where the current token is of the kind asked for, and reports
/// an error where it is not.
pub open spec fn consume_spec(src: Seq<u8>, s: State, kind: TokenType, message: Seq<u8>) -> State {
    if s.current.kind == kind {
        advance_spec(src, s)
    } else {
        error_spec(s, message)
    }
}

/// Writes one byte, with the line of the previous token.
pub open spec fn emit_byte_spec(s: State, byte: u8) -> State {
    State { code: s.code.push(byte), lines: s.lines.push(s.previous.line), ..s }
}

/// Adds a constant and gives its index. One constant too many is an
/// error, and the index is then 0.
pub open spec fn make_constant_spec(s: State, value: Value) -> (State, u8) {
    let added = State { constants: s.constants.push(value), ..s };
    if s.constants.len() >= MAX_CONSTANTS {
        (error_spec(added, "Too many constants in one chunk.".spec_bytes()), 0u8)
    } else {
        (added, s.constants.len() as u8)
    }
}

/// Adds a constant and writes the instruction that loads it.
pub open spec fn emit_constant_spec(s: State, value: Value) -> State {
    emit_byte_spec(
        emit_byte_spec(make_constant_spec(s, value).0, OpCode::Constant.byte()),
        make_constant_spec(s, value).1,
    )
}

/// A number literal: the constant is the next of the given values.
pub open spec fn number_spec(numbers: Seq<u64>, s: State) -> State {
    emit_constant_spec(s, Value::Number(numbers[s.seen - 1]))
}

/// A string literal: its text goes into the pool, and the constant is the
/// reference to it.
pub open spec fn string_spec(s: State) -> State {
    emit_constant_spec(
        State { pool: s.pool.push(s.previous.text), ..s },
        Value::Obj(
            Obj::StringObj(
                StringObj { index: s.pool.len() as usize, len: s.previous.text.len() as usize },
            ),
        ),
    )
}

/// `false`, `true` and `nil` have an instruction each.
pub open spec fn literal_spec(s: State) -> State {
    match s.previous.kind {
        TokenType::False => emit_byte_spec(s, OpCode::False.byte()),
        TokenType::Nil => emit_byte_spec(s, OpCode::Nil.byte()),
        TokenType::True => emit_byte_spec(s, OpCode::True.byte()),
        _ => s,
    }
}

/// The instructions of a binary operator, written after both operands.
pub open spec fn binary_code(s: State, operator: TokenType) -> State {
    match operator {
        TokenType::Plus => emit_byte_spec(s, OpCode::Add.byte()),
        TokenType::Minus => emit_byte_spec(s, OpCode::Subtract.byte()),
        TokenType::Star => emit_byte_spec(s, OpCode::Multiply.byte()),
        TokenType::Slash => emit_byte_spec(s, OpCode::Divide.byte()),
        TokenType::EqualEqual => emit_byte_spec(s, OpCode::Equal.byte()),
        TokenType::BangEqual => emit_byte_spec(
            emit_byte_spec(s, OpCode::Equal.byte()),
            OpCode::Not.byte(),
        ),
        TokenType::Less => emit_byte_spec(s, OpCode::Less.byte()),
        TokenType::Greater => emit_byte_spec(s, OpCode::Greater.byte()),
        TokenType::LessEqual => emit_byte_spec(
            emit_byte_spec(s, OpCode::Greater.byte()),
            OpCode::Not.byte(),
        ),
        TokenType::GreaterEqual => emit_byte_spec(
            emit_byte_spec(s, OpCode::Less.byte()),
            OpCode::Not.byte(),
        ),
        _ => s,
    }
}

/// The instruction of a unary operator, written after its operand.
pub open spec fn unary_code(s: State, operator: TokenType) -> State {
    match operator {
        TokenType::Minus => emit_byte_spec(s, OpCode::Negate.byte()),
        TokenType::Bang => emit_byte_spec(s, OpCode::Not.byte()),
        _ => s,
    }
}

/// Scanning on never goes back and stays in the source; it changes
/// nothing but the scanner's place, the current token and the error
/// report; and the token it stops at is no error token.
pub proof fn lemma_scan_on(src: Seq<u8>, s: State)
    requires
        s.cursor.current <= src.len(),
    ensures
        s.cursor.current <= scan_on(src, s).cursor.current <= src.len(),
        scan_on(src, s).current.kind != TokenType::Eof ==> s.cursor.current < scan_on(
            src,
            s,
        ).cursor.current,
        scan_on(src, s).current.kind != TokenType::Error,
        s.had_error ==> scan_on(src, s).had_error,
        (s.panic_mode ==> s.had_error) ==> (scan_on(src, s).panic_mode ==> scan_on(src, s).had_error),
        scan_on(src, s).previous == s.previous,
        scan_on(src, s).seen == s.seen,
        scan_on(src, s).code == s.code,
        scan_on(src, s).lines == s.lines,
        scan_on(src, s).constants == s.constants,
        scan_on(src, s).pool == s.pool,
    decreases src.len() - s.cursor.current,
{
    lemma_scan_progress(src, s.cursor);
    let token = lexed(scan_spec(src, s.cursor));
    let scanned = State { cursor: scan_spec(src, s.cursor).next, current: token, ..s };
    if token.kind == TokenType::Error {
        lemma_scan_on(src, error_at_spec(scanned, token, token.text));
    }
}

/// Advancing brings the parser nearer to the end of the source, unless it
/// is there already.
pub proof fn lemma_advance_measure(src: Seq<u8>, s: State)
    requires
        s.cursor.current <= src.len(),
    ensures
        advance_spec(src, s).cursor.current <= src.len(),
        measure(src, advance_spec(src, s)) <= measure(src, s),
        s.current.kind != TokenType::Eof ==> measure(src, advance_spec(src, s)) < measure(src, s),
        advance_spec(src, s).previous == s.current,
{
    lemma_scan_on(
        src,
        State {
            previous: s.current,
            seen: if s.current.kind == TokenType::Number {
                s.seen + 1
            } else {
                s.seen
            },
            ..s
        },
    );
}

/// The spans of the number tokens from `from` on, in their order: for each
/// the offsets of its first byte and of the byte after its last.
pub open spec fn number_spans(src: Seq<u8>, from: Cursor) -> Seq<(usize, usize)>
    decreases src.len() - from.current,
    when from.current <= src.len()
{
    let scan = scan_spec(src, from);
    if scan.kind == TokenType::Eof {
        Seq::empty()
    } else {
        proof {
            lemma_scan_progress(src, from);
        }
        let rest = number_spans(src, scan.next);
        if scan.kind == TokenType::Number {
            seq![(scan.start as usize, scan.next.current as usize)] + rest
        } else {
            rest
        }
    }
}

/// The place where scanning starts: the first byte, on line 1.
pub open spec fn origin() -> Cursor {
    Cursor { current: 0, line: 1 }
}

/// The parser's state before the first token: nothing scanned, nothing
/// reported, and the chunk and the pool as they are handed to it.
pub open spec fn start_state(
    code: Seq<u8>,
    lines: Seq<usize>,
    constants: Seq<Value>,
    pool: Seq<Seq<u8>>,
) -> State {
    State {
        cursor: origin(),
        current: Lexed { kind: TokenType::Eof, text: Seq::empty(), line: 0 },
        previous: Lexed { kind: TokenType::Eof, text: Seq::empty(), line: 0 },
        had_error: false,
        panic_mode: false,
        report: None,
        seen: 0,
        code,
        lines,
        constants,
        pool,
    }
}

/// Parses an expression whose operators bind at least as tightly as
/// `min`: a token that may start an expression, with what its rule asks
/// for, and then every operator of level `min` or above with its right
/// operand.
///
/// The test on the measure is there for the definition to end. It never
/// fails: no rule takes the parser back in the source.
pub open spec fn parse_precedence_spec(
    src: Seq<u8>,
    numbers: Seq<u64>,
    s: State,
    min: Precedence,
) -> State
    decreases measure(src, s), 0nat,
    when s.cursor.current <= src.len()
{
    let advanced = advance_spec(src, s);
    match rule_of(advanced.previous.kind).prefix {
        None => error_spec(advanced, "Expect expression.".spec_bytes()),
        Some(rule) => {
            proof {
                lemma_advance_measure(src, s);
            }
            let operand = apply_spec(src, numbers, advanced, rule);
            if measure(src, operand) <= measure(src, advanced) {
                infix_spec(src, numbers, operand, min)
            } else {
                operand
            }
        },
    }
}

/// Parses the operators of level `min` or above that follow an operand,
/// each with its right operand. No token binds at the lowest level.
///
/// The test on the measure is there for the definition to end. It never
/// fails: an operator is a token, and taking it brings the parser nearer
/// to the end of the source.
pub open spec fn infix_spec(src: Seq<u8>, numbers: Seq<u64>, s: State, min: Precedence) -> State
    decreases measure(src, s), 5nat,
    when s.cursor.current <= src.len()
{
    if 0 < min.level() <= rule_of(s.current.kind).precedence.level() {
        let applied = infix_step_spec(src, numbers, s);
        if measure(src, applied) < measure(src, s) {
            infix_spec(src, numbers, applied, min)
        } else {
            applied
        }
    } else {
        s
    }
}

/// Takes the current token as an operator and does what its rule asks
/// for; a token that is no operator is an error.
pub open spec fn infix_step_spec(src: Seq<u8>, numbers: Seq<u64>, s: State) -> State
    decreases measure(src, s), 4nat,
    when s.cursor.current <= src.len()
{
    let advanced = advance_spec(src, s);
    match rule_of(advanced.previous.kind).infix {
        None => error_spec(advanced, "Expect expression.".spec_bytes()),
        Some(rule) => {
            proof {
                lemma_advance_measure(src, s);
            }
            apply_spec(src, numbers, advanced, rule)
        },
    }
}

/// Does what a rule asks for.
pub open spec fn apply_spec(src: Seq<u8>, numbers: Seq<u64>, s: State, rule: ParseFn) -> State
    decreases measure(src, s), 3nat,
{
    match rule {
        ParseFn::Grouping => grouping_spec(src, numbers, s),
        ParseFn::Unary => unary_spec(src, numbers, s),
        ParseFn::Binary => binary_spec(src, numbers, s),
        ParseFn::Number => number_spec(numbers, s),
        ParseFn::String => string_spec(s),
        ParseFn::Literal => literal_spec(s),
    }
}

/// A parenthesised expression: the expression, then the closing bracket.
pub open spec fn grouping_spec(src: Seq<u8>, numbers: Seq<u64>, s: State) -> State
    decreases measure(src, s), 2nat,
{
    consume_spec(
        src,
        expression_spec(src, numbers, s),
        TokenType::RightParen,
        "Expect ')' after expression.".spec_bytes(),
    )
}

/// A unary operator: its operand, which binds at least as tightly as a
/// unary operator does, and then its instruction.
pub open spec fn unary_spec(src: Seq<u8>, numbers: Seq<u64>, s: State) -> State
    decreases measure(src, s), 2nat,
{
    unary_code(parse_precedence_spec(src, numbers, s, Precedence::Unary), s.previous.kind)
}

/// A binary operator: its right operand, which binds more tightly than the
/// operator does, and then its instructions.
pub open spec fn binary_spec(src: Seq<u8>, numbers: Seq<u64>, s: State) -> State
    decreases measure(src, s), 2nat,
{
    binary_code(
        parse_precedence_spec(src, numbers, s, rule_of(s.previous.kind).precedence.above()),
        s.previous.kind,
    )
}

/// An expression: everything from the level of assignment up.
pub open spec fn expression_spec(src: Seq<u8>, numbers: Seq<u64>, s: State) -> State
    decreases measure(src, s), 1nat,
{
    parse_precedence_spec(src, numbers, s, Precedence::Assignment)
}

/// Compiles the source: one expression, the end of the source, and the
/// `Return` instruction.
pub open spec fn compile_spec(src: Seq<u8>, numbers: Seq<u64>, s: State) -> State {
    emit_byte_spec(
        consume_spec(
            src,
            expression_spec(src, numbers, advance_spec(src, s)),
            TokenType::Eof,
            "Expected end of expression.".spec_bytes(),
        ),
        OpCode::Return.byte(),
    )
}

/// Scanning one token takes its span off the spans that are left, where
/// it is a number, and leaves them as they are, where it is not.
pub proof fn lemma_spans_step(src: Seq<u8>, from: Cursor)
    requires
        from.current <= src.len(),
    ensures
        number_spans(src, from).len() == number_spans(src, scan_spec(src, from).next).len() + if scan_spec(
            src,
            from,
        ).kind == TokenType::Number {
            1nat
        } else {
            0nat
        },
{
    lemma_scan_progress(src, from);
    let scan = scan_spec(src, from);
    if scan.kind == TokenType::Eof {
        assert(scan_spec(src, scan.next).kind == TokenType::Eof);
    }
}

/// The content of a token.
pub open spec fn token_view(token: Token) -> Lexed {
    Lexed { kind: token.token_type, text: token.value@, line: token.line }
}

/// The number of number tokens that the parser has taken or has yet to
/// meet: those taken, the one in hand, and those left in the source.
pub open spec fn owed(src: Seq<u8>, s: State) -> nat {
    let held: nat = if s.current.kind == TokenType::Number {
        1
    } else {
        0
    };
    s.seen + held + number_spans(src, s.cursor).len()
}

impl Place {
    pub open spec fn view(&self) -> PlaceView {
        match self {
            Place::End => PlaceView::End,
            Place::Nowhere => PlaceView::Nowhere,
            Place::Lexeme(text) => PlaceView::Lexeme(text@),
        }
    }
}

impl Diagnostic {
    pub open spec fn view(&self) -> Report {
        Report { line: self.line, place: self.place@, message: self.message@ }
    }

    /// The line that reports the error.
    pub fn render(&self) -> (text: Vec<u8>)
        ensures
            text@ == rendered(self@),
    {
        let mut text: Vec<u8> = Vec::new();
        append_bytes(&mut text, "[line ".as_bytes());
        append_decimal(&mut text, self.line);
        append_bytes(&mut text, "] Error".as_bytes());
        match &self.place {
            Place::End => {
                append_bytes(&mut text, " at end".as_bytes());
            },
            Place::Nowhere => {
                assert(text@ + Seq::<u8>::empty() =~= text@);
            },
            Place::Lexeme(lexeme) => {
                let ghost head = text@;
                append_bytes(&mut text, " at '".as_bytes());
                append_bytes(&mut text, lexeme.as_slice());
                append_bytes(&mut text, "'".as_bytes());
                assert(text@ =~= head + (" at '".spec_bytes() + lexeme@ + "'".spec_bytes()));
            },
        }
        append_bytes(&mut text, ": ".as_bytes());
        append_bytes(&mut text, self.message.as_slice());
        assert(text@ =~= Seq::<u8>::empty() + rendered(self@));
        text
    }
}

/// The line that reports a compile error: `[line L] Error`, then ` at end`
/// for an error at the end of the source, ` at 'text'` for one at a token,
/// and nothing for one that the scanner found; then `: ` and the message.
pub open spec fn rendered(report: Report) -> Seq<u8> {
    "[line ".spec_bytes() + decimal(report.line as nat) + "] Error".spec_bytes() + match report.place {
        PlaceView::End => " at end".spec_bytes(),
        PlaceView::Nowhere => Seq::empty(),
        PlaceView::Lexeme(text) => " at '".spec_bytes() + text + "'".spec_bytes(),
    } + ": ".spec_bytes() + report.message
}

/// The content of an error report, if there is one.
pub open spec fn report_view(diagnostic: Option<Diagnostic>) -> Option<Report> {
    match diagnostic {
        Some(d) => Some(d@),
        None => None,
    }
}

impl Precedence {
    /// The height of the level on the ladder.
    pub fn height(self) -> (r: u8)
        ensures
            r == self.level(),
    {
        match self {
            Precedence::Lowest => 0,
            Precedence::Assignment => 1,
            Precedence::Or => 2,
            Precedence::And => 3,
            Precedence::Equality => 4,
            Precedence::Comparison => 5,
            Precedence::Term => 6,
            Precedence::Factor => 7,
            Precedence::Unary => 8,
            Precedence::Call => 9,
            Precedence::Primary => 10,
        }
    }

    /// The level above, and the highest for the highest.
    pub fn higher(self) -> (r: Precedence)
        ensures
            r == self.above(),
            r.level() >= 1,
    {
        match self {
            Precedence::Lowest => Precedence::Assignment,
            Precedence::Assignment => Precedence::Or,
            Precedence::Or => Precedence::And,
            Precedence::And => Precedence::Equality,
            Precedence::Equality => Precedence::Comparison,
            Precedence::Comparison => Precedence::Term,
            Precedence::Term => Precedence::Factor,
            Precedence::Factor => Precedence::Unary,
            Precedence::Unary => Precedence::Call,
            Precedence::Call => Precedence::Primary,
            Precedence::Primary => Precedence::Primary,
        }
    }
}

/// The rule of a token kind.
pub fn get_rule(token_type: TokenType) -> (r: ParseRule)
    ensures
        r == rule_of(token_type),
{
    match token_type {
        TokenType::LeftParen => ParseRule {
            prefix: Some(ParseFn::Grouping),
            infix: None,
            precedence: Precedence::Lowest,
        },
        TokenType::Minus => ParseRule {
            prefix: Some(ParseFn::Unary),
            infix: Some(ParseFn::Binary),
            precedence: Precedence::Term,
        },
        TokenType::Plus => ParseRule {
            prefix: None,
            infix: Some(ParseFn::Binary),
            precedence: Precedence::Term,
        },
        TokenType::Slash | TokenType::Star => ParseRule {
            prefix: None,
            infix: Some(ParseFn::Binary),
            precedence: Precedence::Factor,
        },
        TokenType::Bang => ParseRule {
            prefix: Some(ParseFn::Unary),
            infix: None,
            precedence: Precedence::Lowest,
        },
        TokenType::BangEqual | TokenType::EqualEqual => ParseRule {
            prefix: None,
            infix: Some(ParseFn::Binary),
            precedence: Precedence::Equality,
        },
        TokenType::Greater | TokenType::GreaterEqual | TokenType::Less | TokenType::LessEqual => ParseRule {
            prefix: None,
            infix: Some(ParseFn::Binary),
            precedence: Precedence::Comparison,
        },
        TokenType::Number => ParseRule {
            prefix: Some(ParseFn::Number),
            infix: None,
            precedence: Precedence::Lowest,
        },
        TokenType::String => ParseRule {
            prefix: Some(ParseFn::String),
            infix: None,
            precedence: Precedence::Lowest,
        },
        TokenType::False | TokenType::True | TokenType::Nil => ParseRule {
            prefix: Some(ParseFn::Literal),
            infix: None,
            precedence: Precedence::Lowest,
        },
        _ => ParseRule { prefix: None, infix: None, precedence: Precedence::Lowest },
    }
}

/// The parser. It writes into a chunk and a string pool that it borrows,
/// and keeps the first error it meets.
pub struct Parser<'a> {
    pub scanner: Scanner<'a>,
    pub current: Token<'a>,
    pub previous: Token<'a>,
    pub had_error: bool,
    pub panic_mode: bool,
    /// The error that was reported, if any.
    pub diagnostic: Option<Diagnostic>,
    /// The values of the number tokens of the source, in their order.
    pub numbers: &'a [u64],
    /// How many of them have been taken.
    pub numbers_seen: usize,
    pub chunk: &'a mut Chunk,
    pub strings: &'a mut StringPool,
}

impl<'a> Parser<'a> {
    /// The source, as bytes.
    pub open spec fn src(&self) -> Seq<u8> {
        self.scanner.source@
    }

    /// Everything the parser knows and has written.
    pub open spec fn state(&self) -> State {
        State {
            cursor: self.scanner.cursor(),
            current: token_view(self.current),
            previous: token_view(self.previous),
            had_error: self.had_error,
            panic_mode: self.panic_mode,
            report: report_view(self.diagnostic),
            seen: self.numbers_seen as nat,
            code: self.chunk.code@,
            lines: self.chunk.lines@,
            constants: self.chunk.constants@,
            pool: self.strings@,
        }
    }

    /// The scanner and the chunk are well formed, every string constant is
    /// alive in the pool, and there is a value for every number token: as
    /// many are given as the source holds.
    pub open spec fn wf(&self) -> bool {
        &&& self.scanner.wf()
        &&& self.chunk.wf()
        &&& all_live(self.chunk.constants@, self.strings@)
        &&& owed(self.src(), self.state()) == self.numbers@.len()
        &&& self.previous.token_type == TokenType::Number ==> self.numbers_seen >= 1
        &&& self.had_error == self.panic_mode
        &&& self.had_error == self.diagnostic is Some
    }

    /// A parser at the start of `source` that writes into `chunk` and
    /// `strings`. `numbers` holds the value of each number token of the
    /// source, in the order of the tokens.
    pub fn new(
        source: &'a str,
        numbers: &'a [u64],
        chunk: &'a mut Chunk,
        strings: &'a mut StringPool,
    ) -> (r: Self)
        requires
            source.spec_bytes().len() < usize::MAX,
            numbers@.len() == number_spans(source.spec_bytes(), origin()).len(),
            old(chunk).wf(),
            all_live(old(chunk).constants@, old(strings)@),
        ensures
            r.wf(),
            r.src() == source.spec_bytes(),
            r.numbers@ == numbers@,
            r.state() == start_state(
                old(chunk).code@,
                old(chunk).lines@,
                old(chunk).constants@,
                old(strings)@,
            ),
            *final(chunk) == *final(r.chunk),
            *final(strings) == *final(r.strings),
    {
        let scanner = Scanner::new(source);
        let default_token = Token {
            token_type: TokenType::Eof,
            value: slice_subrange(scanner.source, 0, 0),
            line: 0,
        };
        assert(default_token.value@ =~= Seq::<u8>::empty());
        Parser {
            scanner,
            current: default_token,
            previous: default_token,
            had_error: false,
            panic_mode: false,
            diagnostic: None,
            numbers,
            numbers_seen: 0,
            chunk,
            strings,
        }
    }

    /// Compiles the source into the chunk: one expression, then `Return`.
    /// Returns whether the source was free of errors; where it was not,
    /// `diagnostic` holds the first of them.
    pub fn compile(&mut self) -> (ok: bool)
        requires
            old(self).wf(),
        ensures
            final(self).wf(),
            final(self).scanner.source@ == old(self).scanner.source@,
            final(self).numbers@ == old(self).numbers@,
            *final(final(self).chunk) == *final(old(self).chunk),
            *final(final(self).strings) == *final(old(self).strings),
            final(self).state() == compile_spec(old(self).src(), old(self).numbers@, old(self).state()),
            ok == !final(self).had_error,
            final(self).chunk.code@.len() == final(self).chunk.lines@.len(),
            encoded_from(old(self).chunk.code@, old(self).chunk.constants@.len(), 0) ==> encoded_from(
                final(self).chunk.code@,
                final(self).chunk.constants@.len(),
                0,
            ),
            ok && old(self).chunk.code@.len() == 0 ==> balanced(
                final(self).chunk.code@,
                final(self).chunk.constants@.len(),
                0,
                0,
            ),
    {
        proof {
            if encoded_from(self.chunk.code@, self.chunk.constants@.len(), 0) {
                lemma_compile(self.src(), self.numbers@, self.state());
            }
        }
        self.advance();
        self.expression();
        self.consume(TokenType::Eof, "Expected end of expression.".as_bytes());
        self.end_compiler();
        !self.had_error
    }

    /// Moves to the next token, reporting the error tokens on the way.
    fn advance(&mut self)
        requires
            old(self).wf(),
        ensures
            final(self).wf(),
            final(self).scanner.source@ == old(self).scanner.source@,
            final(self).numbers@ == old(self).numbers@,
            *final(final(self).chunk) == *final(old(self).chunk),
            *final(final(self).strings) == *final(old(self).strings),
            final(self).state() == advance_spec(old(self).src(), old(self).state()),
    {
        let total = self.numbers.len();
        if self.current.token_type == TokenType::Number {
            self.numbers_seen = self.numbers_seen + 1;
        }
        self.previous = self.current;
        let ghost start = self.state();
        let ghost mut pre = start;
        proof {
            lemma_spans_step(self.src(), start.cursor);
        }
        self.current = self.scanner.scan_token();
        while self.current.token_type == TokenType::Error
            invariant
                self.scanner.wf(),
                self.chunk.wf(),
                all_live(self.chunk.constants@, self.strings@),
                self.scanner.source@ == old(self).scanner.source@,
                self.numbers@ == old(self).numbers@,
                *final(self.chunk) == *final(old(self).chunk),
                *final(self.strings) == *final(old(self).strings),
                pre.cursor.current <= self.src().len(),
                scan_on(self.src(), pre) == scan_on(self.src(), start),
                self.state() == (State {
                    cursor: scan_spec(self.src(), pre.cursor).next,
                    current: lexed(scan_spec(self.src(), pre.cursor)),
                    ..pre
                }),
                owed(self.src(), self.state()) == self.numbers@.len(),
                self.previous.token_type == TokenType::Number ==> self.numbers_seen >= 1,
                self.had_error == self.panic_mode,
                self.had_error == self.diagnostic is Some,
            decreases
                    self.src().len() - self.scanner.current + if self.current.token_type
                        == TokenType::Error {
                        1int
                    } else {
                        0int
                    },
        {
            let message = self.current.value;
            self.error_at_current(message);
            proof {
                pre = self.state();
                lemma_scan_progress(self.src(), pre.cursor);
                lemma_spans_step(self.src(), pre.cursor);
            }
            self.current = self.scanner.scan_token();
        }
    }

    /// Moves on where the current token is of the kind asked for, and
    /// reports an error where it is not.
    fn consume(&mut self, token_type: TokenType, message: &[u8])
        requires
            old(self).wf(),
        ensures
            final(self).wf(),
            final(self).scanner.source@ == old(self).scanner.source@,
            final(self).numbers@ == old(self).numbers@,
            *final(final(self).chunk) == *final(old(self).chunk),
            *final(final(self).strings) == *final(old(self).strings),
            final(self).state() == consume_spec(
                old(self).src(),
                old(self).state(),
                token_type,
                message@,
            ),
    {
        if self.current.token_type == token_type {
            self.advance();
        } else {
            self.error_at_current(message);
        }
    }

    /// Writes one byte, with the line of the previous token.
    fn emit_byte(&mut self, byte: u8)
        requires
            old(self).wf(),
        ensures
            final(self).wf(),
            final(self).scanner.source@ == old(self).scanner.source@,
            final(self).numbers@ == old(self).numbers@,
            *final(final(self).chunk) == *final(old(self).chunk),
            *final(final(self).strings) == *final(old(self).strings),
            final(self).state() == emit_byte_spec(old(self).state(), byte),
    {
        self.chunk.write_chunk(byte, self.previous.line);
    }

    fn emit_bytes(&mut self, byte1: u8, byte2: u8)
        requires
            old(self).wf(),
        ensures
            final(self).wf(),
            final(self).scanner.source@ == old(self).scanner.source@,
            final(self).numbers@ == old(self).numbers@,
            *final(final(self).chunk) == *final(old(self).chunk),
            *final(final(self).strings) == *final(old(self).strings),
            final(self).state() == emit_byte_spec(emit_byte_spec(old(self).state(), byte1), byte2),
    {
        self.emit_byte(byte1);
        self.emit_byte(byte2);
    }

    fn emit_return(&mut self)
        requires
            old(self).wf(),
        ensures
            final(self).wf(),
            final(self).scanner.source@ == old(self).scanner.source@,
            final(self).numbers@ == old(self).numbers@,
            *final(final(self).chunk) == *final(old(self).chunk),
            *final(final(self).strings) == *final(old(self).strings),
            final(self).state() == emit_byte_spec(old(self).state(), OpCode::Return.byte()),
    {
        self.emit_byte(OpCode::Return.to_byte());
    }

    /// Adds a constant and gives its index, or reports that the chunk has
    /// too many.
    fn make_constant(&mut self, value: Value) -> (index: u8)
        requires
            old(self).wf(),
            value.live_in(old(self).strings@),
        ensures
            final(self).wf(),
            final(self).scanner.source@ == old(self).scanner.source@,
            final(self).numbers@ == old(self).numbers@,
            *final(final(self).chunk) == *final(old(self).chunk),
            *final(final(self).strings) == *final(old(self).strings),
            final(self).state() == make_constant_spec(old(self).state(), value).0,
            index == make_constant_spec(old(self).state(), value).1,
    {
        let constant = self.chunk.add_constant(value);
        if constant >= MAX_CONSTANTS {
            self.error("Too many constants in one chunk.".as_bytes());
            0
        } else {
            constant as u8
        }
    }

    fn emit_constant(&mut self, value: Value)
        requires
            old(self).wf(),
            value.live_in(old(self).strings@),
        ensures
            final(self).wf(),
            final(self).scanner.source@ == old(self).scanner.source@,
            final(self).numbers@ == old(self).numbers@,
            *final(final(self).chunk) == *final(old(self).chunk),
            *final(final(self).strings) == *final(old(self).strings),
            final(self).state() == emit_constant_spec(old(self).state(), value),
    {
        let constant = self.make_constant(value);
        self.emit_bytes(OpCode::Constant.to_byte(), constant);
    }

    fn end_compiler(&mut self)
        requires
            old(self).wf(),
        ensures
            final(self).wf(),
            final(self).scanner.source@ == old(self).scanner.source@,
            final(self).numbers@ == old(self).numbers@,
            *final(final(self).chunk) == *final(old(self).chunk),
            *final(final(self).strings) == *final(old(self).strings),
            final(self).state() == emit_byte_spec(old(self).state(), OpCode::Return.byte()),
    {
        self.emit_return();
    }

    /// Does what a rule asks for.
    fn apply(&mut self, rule: ParseFn)
        requires
            old(self).wf(),
            rule == ParseFn::Number ==> old(self).previous.token_type == TokenType::Number,
        ensures
            final(self).wf(),
            final(self).scanner.source@ == old(self).scanner.source@,
            final(self).numbers@ == old(self).numbers@,
            *final(final(self).chunk) == *final(old(self).chunk),
            *final(final(self).strings) == *final(old(self).strings),
            final(self).state() == apply_spec(
                old(self).src(),
                old(self).numbers@,
                old(self).state(),
                rule,
            ),
            measure(final(self).src(), final(self).state()) <= measure(
                old(self).src(),
                old(self).state(),
            ),
        decreases measure(old(self).src(), old(self).state()), 3nat,
    {
        match rule {
            ParseFn::Grouping => self.grouping(),
            ParseFn::Unary => self.unary(),
            ParseFn::Binary => self.binary(),
            ParseFn::Number => self.number(),
            ParseFn::String => self.string(),
            ParseFn::Literal => self.literal(),
        }
    }

    fn binary(&mut self)
        requires
            old(self).wf(),
        ensures
            final(self).wf(),
            final(self).scanner.source@ == old(self).scanner.source@,
            final(self).numbers@ == old(self).numbers@,
            *final(final(self).chunk) == *final(old(self).chunk),
            *final(final(self).strings) == *final(old(self).strings),
            final(self).state() == binary_spec(old(self).src(), old(self).numbers@, old(self).state()),
            measure(final(self).src(), final(self).state()) <= measure(
                old(self).src(),
                old(self).state(),
            ),
        decreases measure(old(self).src(), old(self).state()), 2nat,
    {
        let operator_type = self.previous.token_type;
        let rule = get_rule(operator_type);
        self.parse_precedence(rule.precedence.higher());
        match operator_type {
            TokenType::Plus => self.emit_byte(OpCode::Add.to_byte()),
            TokenType::Minus => self.emit_byte(OpCode::Subtract.to_byte()),
            TokenType::Star => self.emit_byte(OpCode::Multiply.to_byte()),
            TokenType::Slash => self.emit_byte(OpCode::Divide.to_byte()),
            TokenType::EqualEqual => self.emit_byte(OpCode::Equal.to_byte()),
            TokenType::BangEqual => self.emit_bytes(OpCode::Equal.to_byte(), OpCode::Not.to_byte()),
            TokenType::Less => self.emit_byte(OpCode::Less.to_byte()),
            TokenType::Greater => self.emit_byte(OpCode::Greater.to_byte()),
            TokenType::LessEqual => self.emit_bytes(OpCode::Greater.to_byte(), OpCode::Not.to_byte()),
            TokenType::GreaterEqual => self.emit_bytes(OpCode::Less.to_byte(), OpCode::Not.to_byte()),
            _ => (),
        }
    }

    fn literal(&mut self)
        requires
            old(self).wf(),
        ensures
            final(self).wf(),
            final(self).scanner.source@ == old(self).scanner.source@,
            final(self).numbers@ == old(self).numbers@,
            *final(final(self).chunk) == *final(old(self).chunk),
            *final(final(self).strings) == *final(old(self).strings),
            final(self).state() == literal_spec(old(self).state()),
    {
        match self.previous.token_type {
            TokenType::False => self.emit_byte(OpCode::False.to_byte()),
            TokenType::Nil => self.emit_byte(OpCode::Nil.to_byte()),
            TokenType::True => self.emit_byte(OpCode::True.to_byte()),
            _ => (),
        }
    }

    fn grouping(&mut self)
        requires
            old(self).wf(),
        ensures
            final(self).wf(),
            final(self).scanner.source@ == old(self).scanner.source@,
            final(self).numbers@ == old(self).numbers@,
            *final(final(self).chunk) == *final(old(self).chunk),
            *final(final(self).strings) == *final(old(self).strings),
            final(self).state() == grouping_spec(
                old(self).src(),
                old(self).numbers@,
                old(self).state(),
            ),
            measure(final(self).src(), final(self).state()) <= measure(
                old(self).src(),
                old(self).state(),
            ),
        decreases measure(old(self).src(), old(self).state()), 2nat,
    {
        self.expression();
        proof {
            lemma_advance_measure(self.src(), self.state());
        }
        self.consume(TokenType::RightParen, "Expect ')' after expression.".as_bytes());
    }

    fn number(&mut self)
        requires
            old(self).wf(),
            old(self).previous.token_type == TokenType::Number,
        ensures
            final(self).wf(),
            final(self).scanner.source@ == old(self).scanner.source@,
            final(self).numbers@ == old(self).numbers@,
            *final(final(self).chunk) == *final(old(self).chunk),
            *final(final(self).strings) == *final(old(self).strings),
            final(self).state() == number_spec(old(self).numbers@, old(self).state()),
    {
        let value = self.numbers[self.numbers_seen - 1];
        self.emit_constant(Value::number(value));
    }

    fn string(&mut self)
        requires
            old(self).wf(),
        ensures
            final(self).wf(),
            final(self).scanner.source@ == old(self).scanner.source@,
            final(self).numbers@ == old(self).numbers@,
            *final(final(self).chunk) == *final(old(self).chunk),
            *final(final(self).strings) == *final(old(self).strings),
            final(self).state() == string_spec(old(self).state()),
    {
        let text = self.strings.intern(self.previous.value);
        assert(all_live(self.chunk.constants@, self.strings@));
        self.emit_constant(Value::Obj(Obj::StringObj(text)));
    }

    fn unary(&mut self)
        requires
            old(self).wf(),
        ensures
            final(self).wf(),
            final(self).scanner.source@ == old(self).scanner.source@,
            final(self).numbers@ == old(self).numbers@,
            *final(final(self).chunk) == *final(old(self).chunk),
            *final(final(self).strings) == *final(old(self).strings),
            final(self).state() == unary_spec(old(self).src(), old(self).numbers@, old(self).state()),
            measure(final(self).src(), final(self).state()) <= measure(
                old(self).src(),
                old(self).state(),
            ),
        decreases measure(old(self).src(), old(self).state()), 2nat,
    {
        let operator_type = self.previous.token_type;
        // Compile the operand
        self.parse_precedence(Precedence::Unary);

        // Emit the operator instruction
        match operator_type {
            TokenType::Minus => self.emit_byte(OpCode::Negate.to_byte()),
            TokenType::Bang => self.emit_byte(OpCode::Not.to_byte()),
            _ => (),
        }
    }

    /// Parses an expression whose operators bind at least as tightly as
    /// `precedence`.
    fn parse_precedence(&mut self, precedence: Precedence)
        requires
            old(self).wf(),
            precedence.level() >= 1,
        ensures
            final(self).wf(),
            final(self).scanner.source@ == old(self).scanner.source@,
            final(self).numbers@ == old(self).numbers@,
            *final(final(self).chunk) == *final(old(self).chunk),
            *final(final(self).strings) == *final(old(self).strings),
            final(self).state() == parse_precedence_spec(
                old(self).src(),
                old(self).numbers@,
                old(self).state(),
                precedence,
            ),
            measure(final(self).src(), final(self).state()) <= measure(
                old(self).src(),
                old(self).state(),
            ),
        decreases measure(old(self).src(), old(self).state()), 0nat,
    {
        proof {
            lemma_advance_measure(self.src(), self.state());
        }
        self.advance();
        let prefix_rule = get_rule(self.previous.token_type).prefix;
        match prefix_rule {
            None => self.error("Expect expression.".as_bytes()),
            Some(prefix_rule) => {
                self.apply(prefix_rule);
                self.infix_loop(precedence);
            },
        }
    }

    /// Parses the operators that bind at least as tightly as `precedence`,
    /// each with its right operand.
    fn infix_loop(&mut self, precedence: Precedence)
        requires
            old(self).wf(),
            precedence.level() >= 1,
        ensures
            final(self).wf(),
            final(self).scanner.source@ == old(self).scanner.source@,
            final(self).numbers@ == old(self).numbers@,
            *final(final(self).chunk) == *final(old(self).chunk),
            *final(final(self).strings) == *final(old(self).strings),
            final(self).state() == infix_spec(
                old(self).src(),
                old(self).numbers@,
                old(self).state(),
                precedence,
            ),
            measure(final(self).src(), final(self).state()) <= measure(
                old(self).src(),
                old(self).state(),
            ),
        decreases measure(old(self).src(), old(self).state()), 5nat,
    {
        while precedence.height() <= get_rule(self.current.token_type).precedence.height()
            invariant
                self.wf(),
                precedence.level() >= 1,
                self.scanner.source@ == old(self).scanner.source@,
                self.numbers@ == old(self).numbers@,
                *final(self.chunk) == *final(old(self).chunk),
                *final(self.strings) == *final(old(self).strings),
                measure(self.src(), self.state()) <= measure(old(self).src(), old(self).state()),
                infix_spec(self.src(), self.numbers@, self.state(), precedence) == infix_spec(
                    old(self).src(),
                    old(self).numbers@,
                    old(self).state(),
                    precedence,
                ),
            decreases measure(self.src(), self.state()),
        {
            self.infix_step();
        }
    }

    /// Takes the current token as an operator and does what its rule asks
    /// for.
    fn infix_step(&mut self)
        requires
            old(self).wf(),
            rule_of(old(self).current.token_type).precedence.level() >= 1,
        ensures
            final(self).wf(),
            final(self).scanner.source@ == old(self).scanner.source@,
            final(self).numbers@ == old(self).numbers@,
            *final(final(self).chunk) == *final(old(self).chunk),
            *final(final(self).strings) == *final(old(self).strings),
            final(self).state() == infix_step_spec(
                old(self).src(),
                old(self).numbers@,
                old(self).state(),
            ),
            measure(final(self).src(), final(self).state()) < measure(
                old(self).src(),
                old(self).state(),
            ),
        decreases measure(old(self).src(), old(self).state()), 4nat,
    {
        proof {
            lemma_advance_measure(self.src(), self.state());
        }
        self.advance();
        let infix_rule = get_rule(self.previous.token_type).infix;
        match infix_rule {
            None => self.error("Expect expression.".as_bytes()),
            Some(infix_rule) => self.apply(infix_rule),
        }
    }

    fn expression(&mut self)
        requires
            old(self).wf(),
        ensures
            final(self).wf(),
            final(self).scanner.source@ == old(self).scanner.source@,
            final(self).numbers@ == old(self).numbers@,
            *final(final(self).chunk) == *final(old(self).chunk),
            *final(final(self).strings) == *final(old(self).strings),
            final(self).state() == expression_spec(
                old(self).src(),
                old(self).numbers@,
                old(self).state(),
            ),
            measure(final(self).src(), final(self).state()) <= measure(
                old(self).src(),
                old(self).state(),
            ),
        decreases measure(old(self).src(), old(self).state()), 1nat,
    {
        self.parse_precedence(Precedence::Assignment);
    }

    fn error_at_current(&mut self, message: &[u8])
        requires
            old(self).wf(),
        ensures
            final(self).wf(),
            final(self).scanner.source@ == old(self).scanner.source@,
            final(self).numbers@ == old(self).numbers@,
            *final(final(self).chunk) == *final(old(self).chunk),
            *final(final(self).strings) == *final(old(self).strings),
            final(self).state() == error_spec(old(self).state(), message@),
    {
        self.error_at(self.current, message);
    }

    /// Reports an error at `token`, unless one has been reported before:
    /// only the first error of a source is kept.
    fn error_at(&mut self, token: Token<'a>, message: &[u8])
        requires
            old(self).wf(),
        ensures
            final(self).wf(),
            final(self).scanner.source@ == old(self).scanner.source@,
            final(self).numbers@ == old(self).numbers@,
            *final(final(self).chunk) == *final(old(self).chunk),
            *final(final(self).strings) == *final(old(self).strings),
            final(self).state() == error_at_spec(old(self).state(), token_view(token), message@),
    {
        if self.panic_mode {
            return ;
        }
        self.panic_mode = true;
        let place = match token.token_type {
            TokenType::Eof => Place::End,
            TokenType::Error => Place::Nowhere,
            _ => Place::Lexeme(slice_to_vec(token.value)),
        };
        self.diagnostic = Some(Diagnostic { line: token.line, place, message: slice_to_vec(message) });
        self.had_error = true;
    }

    fn error(&mut self, message: &[u8])
        requires
            old(self).wf(),
        ensures
            final(self).wf(),
            final(self).scanner.source@ == old(self).scanner.source@,
            final(self).numbers@ == old(self).numbers@,
            *final(final(self).chunk) == *final(old(self).chunk),
            *final(final(self).strings) == *final(old(self).strings),
            final(self).state() == error_spec(old(self).state(), message@),
    {
        self.error_at(self.current, message);
    }
}

/// Whether a parser can be made for `source` with `numbers` as the values
/// of its number tokens: the source is short enough for its lines to be
/// counted, and there are as many values as number tokens.
pub fn accepts(source: &str, numbers: &[u64]) -> (r: bool)
    ensures
        r == (source.spec_bytes().len() < usize::MAX && numbers@.len() == number_spans(
            source.spec_bytes(),
            origin(),
        ).len()),
{
    if source.as_bytes().len() < usize::MAX {
        number_literals(source).len() == numbers.len()
    } else {
        false
    }
}

/// The spans of the number tokens of `source`, in their order: for each
/// the offsets of its first byte and of the byte after its last. The host
/// reads each span as a decimal number and hands the values to the
/// parser.
pub fn number_literals(source: &str) -> (spans: Vec<(usize, usize)>)
    requires
        source.spec_bytes().len() < usize::MAX,
    ensures
        spans@ == number_spans(source.spec_bytes(), origin()),
{
    let mut scanner = Scanner::new(source);
    let mut spans: Vec<(usize, usize)> = Vec::new();
    assert(spans@ + number_spans(scanner.source@, scanner.cursor()) =~= number_spans(
        source.spec_bytes(),
        origin(),
    ));
    loop
        invariant
            scanner.wf(),
            scanner.source@ == source.spec_bytes(),
            spans@ + number_spans(scanner.source@, scanner.cursor()) == number_spans(
                source.spec_bytes(),
                origin(),
            ),
        decreases scanner.source@.len() - scanner.current,
    {
        let ghost from = scanner.cursor();
        let ghost before = spans@;
        proof {
            lemma_scan_progress(scanner.source@, from);
        }
        let token = scanner.scan_token();
        match token.token_type {
            TokenType::Eof => {
                assert(before + number_spans(scanner.source@, from) =~= before);
                return spans;
            },
            TokenType::Number => {
                spans.push((scanner.start, scanner.current));
                assert(spans@ + number_spans(scanner.source@, scanner.cursor()) =~= before
                    + number_spans(scanner.source@, from));
            },
            _ => {},
        }
    }
}

} // verus!
