use rlox::chunk::{Chunk, OpCode};
use rlox::compiler::{accepts, get_rule, number_literals, ParseFn, Parser, Place, Precedence};
use rlox::object::{Obj, StringPool};
use rlox::scanner::TokenType;
use rlox::value::Value;

fn numbers_of(source: &str) -> Vec<u64> {
    number_literals(source)
        .iter()
        .map(|&(start, end)| source[start..end].parse::<f64>().unwrap().to_bits())
        .collect()
}

struct Compiled {
    ok: bool,
    chunk: Chunk,
    strings: StringPool,
    error: Option<Vec<u8>>,
}

fn compile(source: &str) -> Compiled {
    let numbers = numbers_of(source);
    let mut chunk = Chunk::new();
    let mut strings = StringPool::new();
    let (ok, error) = {
        let mut parser = Parser::new(source, &numbers, &mut chunk, &mut strings);
        let ok = parser.compile();
        (ok, parser.diagnostic.as_ref().map(|d| d.render()))
    };
    Compiled { ok, chunk, strings, error }
}

fn bytes(ops: &[OpCode]) -> Vec<u8> {
    ops.iter().map(|op| op.to_byte()).collect()
}

fn error_of(source: &str) -> String {
    let compiled = compile(source);
    assert!(!compiled.ok);
    String::from_utf8(compiled.error.unwrap()).unwrap()
}

#[test]
fn addition_compiles_to_two_constants_and_add() {
    let compiled = compile("1 + 2");
    assert!(compiled.ok);
    assert!(compiled.error.is_none());
    assert_eq!(compiled.chunk.code, vec![0, 0, 0, 1, 7, 13]);
    assert_eq!(compiled.chunk.lines, vec![1, 1, 1, 1, 1, 1]);
    assert_eq!(compiled.chunk.constants.len(), 2);
    assert!(matches!(compiled.chunk.constants[0], Value::Number(b) if b == 1f64.to_bits()));
    assert!(matches!(compiled.chunk.constants[1], Value::Number(b) if b == 2f64.to_bits()));
}

#[test]
fn every_byte_has_its_line() {
    for source in ["1", "1 +\n2 *\n3", "(1 + 2", "\"a\" + \"b\"", "!true == false", "", "1 + + 2"] {
        let compiled = compile(source);
        assert_eq!(compiled.chunk.code.len(), compiled.chunk.lines.len());
    }
    let compiled = compile("1 +\n2 *\n3");
    assert_eq!(compiled.chunk.lines, vec![1, 1, 2, 2, 3, 3, 3, 3, 3]);
}

#[test]
fn constant_operands_are_in_range() {
    for source in ["1 + 2 * 3 - 4 / 5", "\"a\" + \"b\" + \"c\"", "-(1) == !(2)", "(1 + 2"] {
        let compiled = compile(source);
        let code = &compiled.chunk.code;
        let mut offset = 0;
        while offset < code.len() {
            if code[offset] == OpCode::Constant.to_byte() {
                assert!((code[offset + 1] as usize) < compiled.chunk.constants.len());
                offset += 2;
            } else {
                offset += 1;
            }
        }
    }
}

#[test]
fn precedence_orders_the_instructions() {
    let compiled = compile("-(1 + 2) * 4");
    assert!(compiled.ok);
    assert_eq!(compiled.chunk.code, vec![0, 0, 0, 1, 7, 12, 0, 2, 9, 13]);
    let compiled = compile("1 + 2 * 3");
    assert_eq!(compiled.chunk.code, vec![0, 0, 0, 1, 0, 2, 9, 7, 13]);
    let compiled = compile("1 * 2 + 3");
    assert_eq!(compiled.chunk.code, vec![0, 0, 0, 1, 9, 0, 2, 7, 13]);
    let compiled = compile("1 - 2 - 3");
    assert_eq!(compiled.chunk.code, vec![0, 0, 0, 1, 8, 0, 2, 8, 13]);
    let compiled = compile("1 / 2");
    assert_eq!(compiled.chunk.code, vec![0, 0, 0, 1, 10, 13]);
}

#[test]
fn comparison_operators_and_their_negations() {
    let cases: [(&str, Vec<OpCode>); 6] = [
        ("nil == nil", vec![OpCode::Equal]),
        ("nil != nil", vec![OpCode::Equal, OpCode::Not]),
        ("nil < nil", vec![OpCode::Less]),
        ("nil > nil", vec![OpCode::Greater]),
        ("nil <= nil", vec![OpCode::Greater, OpCode::Not]),
        ("nil >= nil", vec![OpCode::Less, OpCode::Not]),
    ];
    for (source, ops) in cases {
        let compiled = compile(source);
        assert!(compiled.ok);
        let mut expected = bytes(&[OpCode::Nil, OpCode::Nil]);
        expected.extend(bytes(&ops));
        expected.push(OpCode::Return.to_byte());
        assert_eq!(compiled.chunk.code, expected);
    }
}

#[test]
fn literals_and_unary_operators() {
    assert_eq!(compile("true").chunk.code, bytes(&[OpCode::True, OpCode::Return]));
    assert_eq!(compile("false").chunk.code, bytes(&[OpCode::False, OpCode::Return]));
    assert_eq!(compile("nil").chunk.code, bytes(&[OpCode::Nil, OpCode::Return]));
    assert_eq!(
        compile("!nil").chunk.code,
        bytes(&[OpCode::Nil, OpCode::Not, OpCode::Return])
    );
    assert_eq!(
        compile("!!true").chunk.code,
        bytes(&[OpCode::True, OpCode::Not, OpCode::Not, OpCode::Return])
    );
    assert_eq!(
        compile("-nil == nil").chunk.code,
        bytes(&[OpCode::Nil, OpCode::Negate, OpCode::Nil, OpCode::Equal, OpCode::Return])
    );
}

#[test]
fn comparison_chain_compiles_as_written() {
    let compiled = compile("!(5 - 4 > 3 * 2 == !nil)");
    assert!(compiled.ok);
    assert_eq!(
        compiled.chunk.code,
        vec![0, 0, 0, 1, 8, 0, 2, 0, 3, 9, 5, 1, 11, 4, 11, 13]
    );
}

#[test]
fn string_literals_go_into_the_pool() {
    let compiled = compile("\"st\" + \"ring\"");
    assert!(compiled.ok);
    assert_eq!(compiled.chunk.code, vec![0, 0, 0, 1, 7, 13]);
    assert_eq!(compiled.strings.strings, vec![b"st".to_vec(), b"ring".to_vec()]);
    match compiled.chunk.constants[1] {
        Value::Obj(Obj::StringObj(s)) => {
            assert_eq!((s.index, s.len), (1, 4));
            assert_eq!(s.as_slice(&compiled.strings), b"ring");
            assert_eq!(s.as_str(&compiled.strings), Some("ring"));
        }
        other => panic!("expected a string, got {:?}", other),
    }
}

#[test]
fn number_values_are_taken_in_order() {
    let source = "1.5 + (20 - 0.25) * 3";
    assert_eq!(number_literals(source), vec![(0, 3), (7, 9), (12, 16), (20, 21)]);
    let compiled = compile(source);
    assert!(compiled.ok);
    let expected = [1.5f64, 20.0, 0.25, 3.0];
    assert_eq!(compiled.chunk.constants.len(), 4);
    for (constant, want) in compiled.chunk.constants.iter().zip(expected) {
        assert!(matches!(constant, Value::Number(b) if *b == want.to_bits()));
    }
    assert_eq!(number_literals("\"1\" // 2\n x3 4"), vec![(13, 14)]);
    assert_eq!(number_literals(""), vec![]);
}

#[test]
fn errors_are_reported_at_the_current_token() {
    assert_eq!(error_of("(1 + 2"), "[line 1] Error at end: Expect ')' after expression.");
    assert_eq!(error_of(""), "[line 1] Error at end: Expect expression.");
    assert_eq!(error_of("1 2"), "[line 1] Error at '2': Expected end of expression.");
    assert_eq!(error_of("1 +\n\n* 2"), "[line 3] Error at '2': Expect expression.");
    assert_eq!(error_of("1 + )"), "[line 1] Error at end: Expect expression.");
    assert_eq!(error_of("\n\n(1 nil"), "[line 3] Error at 'nil': Expect ')' after expression.");
    assert_eq!(error_of("1 @"), "[line 1] Error: Unexpected character.");
    assert_eq!(error_of("1 + \"abc"), "[line 1] Error: Unterminated string.");
    assert_eq!(error_of("var"), "[line 1] Error at end: Expect expression.");
}

#[test]
fn only_the_first_error_is_kept() {
    let numbers = numbers_of("@ # (1");
    let mut chunk = Chunk::new();
    let mut strings = StringPool::new();
    let mut parser = Parser::new("@ # (1", &numbers, &mut chunk, &mut strings);
    assert!(!parser.compile());
    assert!(parser.had_error);
    assert!(parser.panic_mode);
    let diagnostic = parser.diagnostic.as_ref().unwrap();
    assert_eq!(diagnostic.line, 1);
    assert!(matches!(diagnostic.place, Place::Nowhere));
    assert_eq!(diagnostic.message, b"Unexpected character.".to_vec());
}

#[test]
fn a_failed_compile_leaves_whole_instructions() {
    let compiled = compile("1 + ");
    assert!(!compiled.ok);
    assert_eq!(compiled.chunk.code, vec![0, 0, 7, 13]);
    assert_eq!(compiled.chunk.lines.len(), 4);
}

#[test]
fn rule_table() {
    let rule = get_rule(TokenType::Minus);
    assert_eq!(rule.prefix, Some(ParseFn::Unary));
    assert_eq!(rule.infix, Some(ParseFn::Binary));
    assert_eq!(rule.precedence, Precedence::Term);
    let rule = get_rule(TokenType::LeftParen);
    assert_eq!((rule.prefix, rule.infix), (Some(ParseFn::Grouping), None));
    assert_eq!(rule.precedence, Precedence::Lowest);
    let rule = get_rule(TokenType::Bang);
    assert_eq!((rule.prefix, rule.infix), (Some(ParseFn::Unary), None));
    for kind in [TokenType::Star, TokenType::Slash] {
        let rule = get_rule(kind);
        assert_eq!((rule.prefix, rule.infix), (None, Some(ParseFn::Binary)));
        assert_eq!(rule.precedence, Precedence::Factor);
    }
    for kind in [TokenType::BangEqual, TokenType::EqualEqual] {
        assert_eq!(get_rule(kind).precedence, Precedence::Equality);
    }
    for kind in [
        TokenType::Less,
        TokenType::LessEqual,
        TokenType::Greater,
        TokenType::GreaterEqual,
    ] {
        assert_eq!(get_rule(kind).precedence, Precedence::Comparison);
        assert_eq!(get_rule(kind).infix, Some(ParseFn::Binary));
    }
    assert_eq!(get_rule(TokenType::Number).prefix, Some(ParseFn::Number));
    assert_eq!(get_rule(TokenType::String).prefix, Some(ParseFn::String));
    for kind in [TokenType::True, TokenType::False, TokenType::Nil] {
        assert_eq!(get_rule(kind).prefix, Some(ParseFn::Literal));
    }
    for kind in [
        TokenType::Eof,
        TokenType::Error,
        TokenType::Identifier,
        TokenType::RightParen,
        TokenType::Equal,
        TokenType::And,
        TokenType::Semicolon,
    ] {
        let rule = get_rule(kind);
        assert_eq!((rule.prefix, rule.infix), (None, None));
        assert_eq!(rule.precedence, Precedence::Lowest);
    }
}

#[test]
fn precedence_ladder() {
    let ladder = [
        Precedence::Lowest,
        Precedence::Assignment,
        Precedence::Or,
        Precedence::And,
        Precedence::Equality,
        Precedence::Comparison,
        Precedence::Term,
        Precedence::Factor,
        Precedence::Unary,
        Precedence::Call,
        Precedence::Primary,
    ];
    for (i, level) in ladder.iter().enumerate() {
        assert_eq!(level.height() as usize, i);
        let above = if i + 1 < ladder.len() { ladder[i + 1] } else { Precedence::Primary };
        assert_eq!(level.higher(), above);
    }
}

#[test]
fn a_parser_needs_a_value_for_every_number() {
    assert!(accepts("1 + 2", &[1, 2]));
    assert!(!accepts("1 + 2", &[1]));
    assert!(!accepts("1 + 2", &[1, 2, 3]));
    assert!(accepts("nil", &[]));
    assert!(accepts("", &[]));
    assert!(accepts("\"1\" // 2", &[]));
    assert!(!accepts("nil", &[0]));
}
