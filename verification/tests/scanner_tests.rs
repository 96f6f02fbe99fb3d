use rlox::scanner::{is_alpha, is_digit, Scanner, Token, TokenType};

fn tokens(source: &str) -> Vec<(TokenType, Vec<u8>, usize)> {
    let mut scanner = Scanner::new(source);
    let mut out = Vec::new();
    loop {
        let token: Token = scanner.scan_token();
        out.push((token.token_type, token.value.to_vec(), token.line));
        if token.token_type == TokenType::Eof {
            return out;
        }
    }
}

fn kinds(source: &str) -> Vec<TokenType> {
    tokens(source).into_iter().map(|t| t.0).collect()
}

#[test]
fn empty_source_is_eof_again_and_again() {
    let mut scanner = Scanner::new("");
    for _ in 0..3 {
        let token = scanner.scan_token();
        assert_eq!(token.token_type, TokenType::Eof);
        assert_eq!(token.value, b"");
        assert_eq!(token.line, 1);
    }
}

#[test]
fn punctuation_and_operators() {
    assert_eq!(
        kinds("(){};,.-+/*! != = == < <= > >="),
        vec![
            TokenType::LeftParen,
            TokenType::RightParen,
            TokenType::LeftBrace,
            TokenType::RightBrace,
            TokenType::Semicolon,
            TokenType::Comma,
            TokenType::Dot,
            TokenType::Minus,
            TokenType::Plus,
            TokenType::Slash,
            TokenType::Star,
            TokenType::Bang,
            TokenType::BangEqual,
            TokenType::Equal,
            TokenType::EqualEqual,
            TokenType::Less,
            TokenType::LessEqual,
            TokenType::Greater,
            TokenType::GreaterEqual,
            TokenType::Eof,
        ]
    );
}

#[test]
fn two_byte_operators_take_both_bytes() {
    let all = tokens("!=<=>===");
    assert_eq!(all[0], (TokenType::BangEqual, b"!=".to_vec(), 1));
    assert_eq!(all[1], (TokenType::LessEqual, b"<=".to_vec(), 1));
    assert_eq!(all[2], (TokenType::GreaterEqual, b">=".to_vec(), 1));
    assert_eq!(all[3], (TokenType::EqualEqual, b"==".to_vec(), 1));
    assert_eq!(all[4].0, TokenType::Eof);
}

#[test]
fn every_keyword_is_told_from_identifiers() {
    let words = [
        ("and", TokenType::And),
        ("class", TokenType::Class),
        ("else", TokenType::Else),
        ("false", TokenType::False),
        ("for", TokenType::For),
        ("fun", TokenType::Fun),
        ("if", TokenType::If),
        ("nil", TokenType::Nil),
        ("or", TokenType::Or),
        ("print", TokenType::Print),
        ("return", TokenType::Return),
        ("super", TokenType::Super),
        ("this", TokenType::This),
        ("true", TokenType::True),
        ("var", TokenType::Var),
        ("while", TokenType::While),
    ];
    for (word, kind) in words {
        assert_eq!(tokens(word)[0], (kind, word.as_bytes().to_vec(), 1));
        let longer = format!("{}x", word);
        assert_eq!(tokens(&longer)[0], (TokenType::Identifier, longer.as_bytes().to_vec(), 1));
        let shorter = &word[..word.len() - 1];
        assert_eq!(tokens(shorter)[0], (TokenType::Identifier, shorter.as_bytes().to_vec(), 1));
    }
    for word in ["f", "t", "fa", "fo", "fx", "tx", "_", "a1", "And", "_nil", "x_y9"] {
        assert_eq!(tokens(word)[0], (TokenType::Identifier, word.as_bytes().to_vec(), 1));
    }
}

#[test]
fn numbers_with_and_without_fraction() {
    assert_eq!(tokens("123")[0], (TokenType::Number, b"123".to_vec(), 1));
    assert_eq!(tokens("12.5")[0], (TokenType::Number, b"12.5".to_vec(), 1));
    assert_eq!(
        kinds("12."),
        vec![TokenType::Number, TokenType::Dot, TokenType::Eof]
    );
    assert_eq!(
        kinds(".5"),
        vec![TokenType::Dot, TokenType::Number, TokenType::Eof]
    );
    let all = tokens("1.2.3");
    assert_eq!(all[0], (TokenType::Number, b"1.2".to_vec(), 1));
    assert_eq!(all[1], (TokenType::Dot, b".".to_vec(), 1));
    assert_eq!(all[2], (TokenType::Number, b"3".to_vec(), 1));
    assert_eq!(tokens("7x")[0], (TokenType::Number, b"7".to_vec(), 1));
}

#[test]
fn string_text_is_what_stands_between_the_quotes() {
    assert_eq!(tokens("\"st\"")[0], (TokenType::String, b"st".to_vec(), 1));
    assert_eq!(tokens("\"\"")[0], (TokenType::String, b"".to_vec(), 1));
    let all = tokens("\"a\nb\" x");
    assert_eq!(all[0], (TokenType::String, b"a\nb".to_vec(), 2));
    assert_eq!(all[1], (TokenType::Identifier, b"x".to_vec(), 2));
    assert_eq!(tokens("\"h\u{e9}\"")[0], (TokenType::String, "h\u{e9}".as_bytes().to_vec(), 1));
}

#[test]
fn unterminated_string_is_an_error_token() {
    let all = tokens("\"abc");
    assert_eq!(all[0], (TokenType::Error, b"Unterminated string.".to_vec(), 1));
    assert_eq!(all[1].0, TokenType::Eof);
    let all = tokens("1 \"a\nb\n");
    assert_eq!(all[1], (TokenType::Error, b"Unterminated string.".to_vec(), 3));
}

#[test]
fn unexpected_character_is_an_error_token() {
    let all = tokens("1 @ 2");
    assert_eq!(all[0].0, TokenType::Number);
    assert_eq!(all[1], (TokenType::Error, b"Unexpected character.".to_vec(), 1));
    assert_eq!(all[2], (TokenType::Number, b"2".to_vec(), 1));
    assert_eq!(tokens("#")[0].0, TokenType::Error);
    assert_eq!(tokens("\0")[0].0, TokenType::Error);
}

#[test]
fn blanks_and_comments_are_passed_over() {
    let all = tokens("  \t\r\n// a comment\n  1 // trailing\n/ 2 //");
    assert_eq!(all[0], (TokenType::Number, b"1".to_vec(), 3));
    assert_eq!(all[1], (TokenType::Slash, b"/".to_vec(), 4));
    assert_eq!(all[2], (TokenType::Number, b"2".to_vec(), 4));
    assert_eq!(all[3], (TokenType::Eof, b"".to_vec(), 4));
    assert_eq!(kinds("/"), vec![TokenType::Slash, TokenType::Eof]);
    assert_eq!(kinds("//"), vec![TokenType::Eof]);
    assert_eq!(kinds("// only\n"), vec![TokenType::Eof]);
    assert_eq!(tokens("\n\n\n")[0], (TokenType::Eof, b"".to_vec(), 4));
}

#[test]
fn scanner_keeps_its_place() {
    let mut scanner = Scanner::new("  foo 12");
    assert_eq!(scanner.line, 1);
    assert_eq!(scanner.current, 0);
    let token = scanner.scan_token();
    assert_eq!(token.value, b"foo");
    assert_eq!((scanner.start, scanner.current), (2, 5));
    let token = scanner.scan_token();
    assert_eq!(token.value, b"12");
    assert_eq!((scanner.start, scanner.current), (6, 8));
}

#[test]
fn letters_and_digits() {
    for c in 0..=255u8 {
        let letter = c.is_ascii_alphabetic() || c == b'_';
        assert_eq!(is_alpha(c), letter);
        assert_eq!(is_digit(c), c.is_ascii_digit());
    }
}
