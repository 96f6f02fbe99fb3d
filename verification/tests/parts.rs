use rlox::chunk::{Chunk, OpCode, MAX_CONSTANTS};
use rlox::debug::{disassemble_chunk, disassemble_instruction};
use rlox::number::{
    number_equal, number_greater, number_is_nan, number_less, number_negate, INFINITY_BITS,
    SIGN_BIT,
};
use rlox::object::{Obj, StringObj, StringPool};
use rlox::text::{append_bytes, append_decimal};
use rlox::value::{bytes_equal, Value};
use rlox::vm::is_falsey;

const OPCODES: [OpCode; 14] = [
    OpCode::Constant,
    OpCode::Nil,
    OpCode::True,
    OpCode::False,
    OpCode::Equal,
    OpCode::Greater,
    OpCode::Less,
    OpCode::Add,
    OpCode::Subtract,
    OpCode::Multiply,
    OpCode::Divide,
    OpCode::Not,
    OpCode::Negate,
    OpCode::Return,
];

fn samples() -> Vec<f64> {
    vec![
        0.0,
        -0.0,
        1.0,
        -1.0,
        1.5,
        -1.5,
        2.0,
        1e-310,
        -1e-310,
        f64::MIN_POSITIVE,
        f64::MAX,
        f64::MIN,
        f64::INFINITY,
        f64::NEG_INFINITY,
        f64::NAN,
        -f64::NAN,
        f64::EPSILON,
        123456789.125,
        -0.1,
        0.1,
    ]
}

#[test]
fn opcodes_round_trip_through_bytes() {
    for (i, op) in OPCODES.iter().enumerate() {
        assert_eq!(op.to_byte() as usize, i);
        let back = OpCode::from_byte(op.to_byte()).unwrap();
        assert_eq!(back.to_byte(), op.to_byte());
    }
    for byte in 14..=255u8 {
        assert!(OpCode::from_byte(byte).is_none());
    }
}

#[test]
fn opcode_names() {
    let names = [
        "OP_CONSTANT",
        "OP_NIL",
        "OP_TRUE",
        "OP_FALSE",
        "OP_EQUAL",
        "OP_GREATER",
        "OP_LESS",
        "OP_ADD",
        "OP_SUBTRACT",
        "OP_MULTIPLY",
        "OP_DIVIDE",
        "OP_NOT",
        "OP_NEGATE",
        "OP_RETURN",
    ];
    for (op, name) in OPCODES.iter().zip(names) {
        assert_eq!(op.name(), name);
    }
}

#[test]
fn chunk_write_add_clear() {
    let mut chunk = Chunk::new();
    assert_eq!(chunk.len(), 0);
    chunk.write_chunk(13, 7);
    chunk.write_chunk(1, 8);
    assert_eq!(chunk.len(), 2);
    assert_eq!(chunk.code, vec![13, 1]);
    assert_eq!(chunk.lines, vec![7, 8]);
    assert_eq!(chunk.index(0), 13);
    assert_eq!(chunk.index(1), 1);
    assert_eq!(chunk.add_constant(Value::Nil), 0);
    assert_eq!(chunk.add_constant(Value::Bool(true)), 1);
    assert_eq!(chunk.add_constant(Value::number(5)), 2);
    assert_eq!(chunk.constants.len(), 3);
    assert!(matches!(chunk.constants[2], Value::Number(5)));
    assert_eq!(chunk.len(), 2);
    chunk.clear();
    assert_eq!(chunk.len(), 0);
    assert!(chunk.lines.is_empty());
    assert!(chunk.constants.is_empty());
    assert_eq!(MAX_CONSTANTS, 256);
}

#[test]
fn nil_and_false_are_the_falsey_values() {
    assert!(is_falsey(Value::Nil));
    assert!(is_falsey(Value::Bool(false)));
    assert!(!is_falsey(Value::Bool(true)));
    assert!(!is_falsey(Value::Number(0f64.to_bits())));
    assert!(!is_falsey(Value::Number(f64::NAN.to_bits())));
    let mut pool = StringPool::new();
    let empty = pool.intern(b"");
    assert!(!is_falsey(Value::Obj(Obj::StringObj(empty))));
}

#[test]
fn value_equality_is_by_kind_and_content() {
    let mut pool = StringPool::new();
    let a = pool.intern(b"same");
    let b = pool.intern(b"same");
    let c = pool.intern(b"other");
    assert_ne!(a.index, b.index);
    let values = [
        Value::Nil,
        Value::Bool(true),
        Value::Bool(false),
        Value::Number(1f64.to_bits()),
        Value::Number(2f64.to_bits()),
        Value::Obj(Obj::StringObj(a)),
        Value::Obj(Obj::StringObj(c)),
    ];
    for (i, x) in values.iter().enumerate() {
        for (j, y) in values.iter().enumerate() {
            assert_eq!(x.equals(y, &pool), i == j);
        }
    }
    assert!(Value::Obj(Obj::StringObj(a)).equals(&Value::Obj(Obj::StringObj(b)), &pool));
    assert!(Value::Number(0f64.to_bits()).equals(&Value::Number((-0f64).to_bits()), &pool));
    let nan = Value::Number(f64::NAN.to_bits());
    assert!(!nan.equals(&nan, &pool));
}

#[test]
fn values_print_as_the_language_writes_them() {
    let mut pool = StringPool::new();
    let s = pool.intern("h\u{e9}llo".as_bytes());
    assert_eq!(Value::Nil.text(&pool), Some(b"nil".to_vec()));
    assert_eq!(Value::Bool(true).text(&pool), Some(b"true".to_vec()));
    assert_eq!(Value::Bool(false).text(&pool), Some(b"false".to_vec()));
    assert_eq!(Value::Number(1f64.to_bits()).text(&pool), None);
    assert_eq!(
        Value::string(s.index, s.len).text(&pool),
        Some("h\u{e9}llo".as_bytes().to_vec())
    );
}

#[test]
fn number_comparisons_agree_with_the_doubles() {
    for &a in &samples() {
        assert_eq!(number_is_nan(a.to_bits()), a.is_nan());
        assert_eq!(number_negate(a.to_bits()), (-a).to_bits());
        for &b in &samples() {
            assert_eq!(number_equal(a.to_bits(), b.to_bits()), a == b, "{a} == {b}");
            assert_eq!(number_less(a.to_bits(), b.to_bits()), a < b, "{a} < {b}");
            assert_eq!(number_greater(a.to_bits(), b.to_bits()), a > b, "{a} > {b}");
        }
    }
    assert_eq!(SIGN_BIT, (-0f64).to_bits());
    assert_eq!(INFINITY_BITS, f64::INFINITY.to_bits());
    assert_eq!(number_negate(1.5f64.to_bits()), (-1.5f64).to_bits());
    assert!(number_less(1.5f64.to_bits(), 2f64.to_bits()));
    assert!(!number_less(2f64.to_bits(), 1.5f64.to_bits()));
}

#[test]
fn pool_keeps_every_string_where_it_is() {
    let mut pool = StringPool::new();
    assert_eq!(pool.len(), 0);
    let a = pool.intern(b"ab");
    let b = pool.intern(b"cde");
    assert_eq!((a.index, a.len), (0, 2));
    assert_eq!((b.index, b.len), (1, 3));
    let joined = pool.concatenate(a, b);
    assert_eq!((joined.index, joined.len), (2, 5));
    assert_eq!(joined.as_slice(&pool), b"abcde");
    assert_eq!(a.as_slice(&pool), b"ab");
    assert_eq!(b.as_slice(&pool), b"cde");
    let twice = pool.concatenate(joined, a);
    assert_eq!(twice.as_slice(&pool), b"abcdeab");
    assert_eq!(pool.len(), 4);
    assert_eq!(joined.as_str(&pool), Some("abcde"));
}

#[test]
fn text_of_a_string_needs_utf8() {
    let mut pool = StringPool::new();
    let good = pool.intern("\u{4e2d}".as_bytes());
    let bad = pool.intern(&[0xff, 0x41]);
    let cut = pool.intern(&"\u{4e2d}".as_bytes()[..2]);
    assert_eq!(good.as_str(&pool), Some("\u{4e2d}"));
    assert_eq!(bad.as_str(&pool), None);
    assert_eq!(cut.as_str(&pool), None);
    assert_eq!(bad.as_slice(&pool), &[0xff, 0x41]);
    let plain = StringObj { index: 0, len: 3 };
    assert_eq!(plain.as_slice(&pool), "\u{4e2d}".as_bytes());
}

#[test]
fn bytes_are_equal_when_all_agree() {
    assert!(bytes_equal(b"", b""));
    assert!(bytes_equal(b"abc", b"abc"));
    assert!(!bytes_equal(b"abc", b"abd"));
    assert!(!bytes_equal(b"abc", b"ab"));
    assert!(!bytes_equal(b"", b"a"));
}

#[test]
fn decimal_digits() {
    for (n, want) in [
        (0usize, "0"),
        (7, "7"),
        (10, "10"),
        (42, "42"),
        (100, "100"),
        (65535, "65535"),
        (usize::MAX, "18446744073709551615"),
    ] {
        if n == usize::MAX && usize::BITS != 64 {
            continue;
        }
        let mut out = b"n=".to_vec();
        append_decimal(&mut out, n);
        assert_eq!(out, format!("n={}", want).into_bytes());
    }
    let mut out = b"ab".to_vec();
    append_bytes(&mut out, b"cd");
    append_bytes(&mut out, b"");
    assert_eq!(out, b"abcd".to_vec());
}

#[test]
fn disassembly_walks_the_instructions() {
    let mut chunk = Chunk::new();
    let index = chunk.add_constant(Value::number(1.5f64.to_bits()));
    chunk.write_chunk(OpCode::Constant.to_byte(), 1);
    chunk.write_chunk(index as u8, 1);
    chunk.write_chunk(OpCode::Negate.to_byte(), 1);
    chunk.write_chunk(OpCode::Return.to_byte(), 2);
    chunk.write_chunk(200, 2);
    chunk.write_chunk(OpCode::Constant.to_byte(), 3);
    chunk.write_chunk(9, 3);
    chunk.write_chunk(OpCode::Constant.to_byte(), 4);

    let first = disassemble_instruction(&chunk, 0);
    assert_eq!((first.offset, first.next), (0, 2));
    assert_eq!(first.line, Some(1));
    assert!(matches!(first.opcode, Some(OpCode::Constant)));
    assert_eq!(first.operand, Some(0));
    assert!(matches!(first.constant, Some(Value::Number(b)) if b == 1.5f64.to_bits()));

    let second = disassemble_instruction(&chunk, 2);
    assert_eq!((second.offset, second.next), (2, 3));
    assert_eq!(second.line, None);
    assert!(matches!(second.opcode, Some(OpCode::Negate)));
    assert_eq!(second.operand, None);

    let all = disassemble_chunk(&chunk);
    let offsets: Vec<usize> = all.iter().map(|l| l.offset).collect();
    assert_eq!(offsets, vec![0, 2, 3, 4, 5, 7]);
    let lines: Vec<Option<usize>> = all.iter().map(|l| l.line).collect();
    assert_eq!(lines, vec![Some(1), None, Some(2), None, Some(3), Some(4)]);
    assert!(all[3].opcode.is_none());
    assert_eq!(all[3].byte, 200);
    assert_eq!(all[4].operand, Some(9));
    assert!(all[4].constant.is_none());
    assert_eq!(all[5].operand, None);
    assert_eq!(all[5].next, 8);
    assert!(disassemble_chunk(&Chunk::new()).is_empty());
}
