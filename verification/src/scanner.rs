//! The scanner: source bytes to tokens, one at a time.
//!
//! The source is read as bytes. Bytes above the ASCII range may occur in
//! string literals and comments, where they are passed over unread.
use crate::value::bytes_equal;
use vstd::prelude::*;
use vstd::slice::slice_subrange;
use vstd::string::StringSliceAdditionalSpecFns;

verus! {

/// The kinds of token.
#[derive(Copy, Clone, Debug, PartialEq, Eq, Structural)]
pub enum TokenType {
    LeftParen,
    RightParen,
    LeftBrace,
    RightBrace,
    Comma,
    Dot,
    Minus,
    Plus,
    Semicolon,
    Slash,
    Star,
    Bang,
    BangEqual,
    Equal,
    EqualEqual,
    Greater,
    GreaterEqual,
    Less,
    LessEqual,
    Identifier,
    String,
    Number,
    And,
    Class,
    Else,
    False,
    For,
    Fun,
    If,
    Nil,
    Or,
    Print,
    Return,
    Super,
    This,
    True,
    Var,
    While,
    Error,
    Eof,
}

/// A token: its kind, its text and the line it ends on. The text of a
/// string literal is what stands between the quotes; the text of an error
/// token is the message; every other text is the token as written.
#[derive(Copy, Clone, Debug)]
pub struct Token<'a> {
    pub token_type: TokenType,
    pub value: &'a [u8],
    pub line: usize,
}

/// The scanner's place in the source.
pub struct Scanner<'a> {
    pub source: &'a [u8],
    pub start: usize,
    pub current: usize,
    pub line: usize,
}

/// Where the next token is looked for: an offset and the line it is on.
pub struct Cursor {
    pub current: nat,
    pub line: nat,
}

/// One scanned token and where the scanner stands after it.
pub struct Scan {
    pub kind: TokenType,
    /// The token's text.
    pub text: Seq<u8>,
    /// The offset of the token's first byte.
    pub start: nat,
    /// The place after the token; the token's line is the line of it.
    pub next: Cursor,
}

/// The sets of bytes that a run is made of.
pub enum Run {
    /// Letters, digits and the underscore.
    Word,
    /// Decimal digits.
    Digits,
    /// Everything but the double quote.
    Quoted,
    /// Everything but the line feed.
    Comment,
}

pub open spec fn is_alpha_spec(c: u8) -> bool {
    ('a' as u8 <= c && c <= 'z' as u8) || ('A' as u8 <= c && c <= 'Z' as u8) || c == '_' as u8
}

pub open spec fn is_digit_spec(c: u8) -> bool {
    '0' as u8 <= c && c <= '9' as u8
}

impl Run {
    /// Whether the byte belongs to the set.
    pub open spec fn holds(self, c: u8) -> bool {
        match self {
            Run::Word => is_alpha_spec(c) || is_digit_spec(c),
            Run::Digits => is_digit_spec(c),
            Run::Quoted => c != '"' as u8,
            Run::Comment => c != '\n' as u8,
        }
    }
}

/// The byte at `at`, and 0 past the end.
pub open spec fn byte_at(src: Seq<u8>, at: nat) -> u8 {
    if at < src.len() {
        src[at as int]
    } else {
        0
    }
}

/// The end of the longest run of bytes of `run` that starts at `pos`.
pub open spec fn run_end(src: Seq<u8>, pos: nat, run: Run) -> nat
    decreases src.len() - pos,
{
    if pos < src.len() && run.holds(src[pos as int]) {
        run_end(src, pos + 1, run)
    } else {
        pos
    }
}

/// The number of line feeds in `src[from..to]`.
pub open spec fn line_feeds(src: Seq<u8>, from: nat, to: nat) -> nat
    decreases to - from,
{
    if from < to && to <= src.len() {
        line_feeds(src, from, (to - 1) as nat) + if src[to - 1] == '\n' as u8 {
            1nat
        } else {
            0nat
        }
    } else {
        0
    }
}

/// A run ends at or after its start and within the source; every byte in
/// it belongs to the set, and the byte after it, if there is one, does not.
pub proof fn lemma_run_end(src: Seq<u8>, pos: nat, run: Run)
    ensures
        pos <= run_end(src, pos, run),
        pos <= src.len() ==> run_end(src, pos, run) <= src.len(),
        forall|i: int| pos <= i < run_end(src, pos, run) ==> run.holds(#[trigger] src[i]),
        run_end(src, pos, run) < src.len() ==> !run.holds(src[run_end(src, pos, run) as int]),
    decreases src.len() - pos,
{
    if pos < src.len() && run.holds(src[pos as int]) {
        lemma_run_end(src, pos + 1, run);
    }
}

/// The place after blanks and comments: spaces, tabs, carriage returns and
/// line feeds are passed over, a line feed starting a new line, and so is
/// everything from `//` up to the end of its line.
pub open spec fn skip_blank(src: Seq<u8>, from: Cursor) -> Cursor
    decreases src.len() - from.current,
{
    let c = byte_at(src, from.current);
    if from.current >= src.len() {
        from
    } else if c == ' ' as u8 || c == '\r' as u8 || c == '\t' as u8 {
        skip_blank(src, Cursor { current: from.current + 1, line: from.line })
    } else if c == '\n' as u8 {
        skip_blank(src, Cursor { current: from.current + 1, line: from.line + 1 })
    } else if c == '/' as u8 && byte_at(src, from.current + 1) == '/' as u8 {
        proof {
            lemma_run_end(src, from.current + 2, Run::Comment);
        }
        skip_blank(
            src,
            Cursor { current: run_end(src, from.current + 2, Run::Comment), line: from.line },
        )
    } else {
        from
    }
}

/// The kind of a word: a keyword's kind where the word is that keyword,
/// and `Identifier` otherwise.
pub open spec fn keyword_kind(word: Seq<u8>) -> TokenType {
    if word == "and".spec_bytes() {
        TokenType::And
    } else if word == "class".spec_bytes() {
        TokenType::Class
    } else if word == "else".spec_bytes() {
        TokenType::Else
    } else if word == "false".spec_bytes() {
        TokenType::False
    } else if word == "for".spec_bytes() {
        TokenType::For
    } else if word == "fun".spec_bytes() {
        TokenType::Fun
    } else if word == "if".spec_bytes() {
        TokenType::If
    } else if word == "nil".spec_bytes() {
        TokenType::Nil
    } else if word == "or".spec_bytes() {
        TokenType::Or
    } else if word == "print".spec_bytes() {
        TokenType::Print
    } else if word == "return".spec_bytes() {
        TokenType::Return
    } else if word == "super".spec_bytes() {
        TokenType::Super
    } else if word == "this".spec_bytes() {
        TokenType::This
    } else if word == "true".spec_bytes() {
        TokenType::True
    } else if word == "var".spec_bytes() {
        TokenType::Var
    } else if word == "while".spec_bytes() {
        TokenType::While
    } else {
        TokenType::Identifier
    }
}

/// The end of a number that starts before `pos` with a digit: the digits
/// from `pos` on and, where a dot and a digit follow them, the dot and the
/// digits after it.
pub open spec fn number_end(src: Seq<u8>, pos: nat) -> nat {
    let whole = run_end(src, pos, Run::Digits);
    if byte_at(src, whole) == '.' as u8 && is_digit_spec(byte_at(src, whole + 1)) {
        run_end(src, whole + 1, Run::Digits)
    } else {
        whole
    }
}

/// The kind and the width of the operator or punctuation mark that starts
/// with the byte `c` and is followed by `following`, or `None` where `c`
/// starts none.
pub open spec fn mark(c: u8, following: u8) -> Option<(TokenType, nat)> {
    let twin = following == '=' as u8;
    if c == '(' as u8 {
        Some((TokenType::LeftParen, 1nat))
    } else if c == ')' as u8 {
        Some((TokenType::RightParen, 1nat))
    } else if c == '{' as u8 {
        Some((TokenType::LeftBrace, 1nat))
    } else if c == '}' as u8 {
        Some((TokenType::RightBrace, 1nat))
    } else if c == ';' as u8 {
        Some((TokenType::Semicolon, 1nat))
    } else if c == ',' as u8 {
        Some((TokenType::Comma, 1nat))
    } else if c == '.' as u8 {
        Some((TokenType::Dot, 1nat))
    } else if c == '-' as u8 {
        Some((TokenType::Minus, 1nat))
    } else if c == '+' as u8 {
        Some((TokenType::Plus, 1nat))
    } else if c == '/' as u8 {
        Some((TokenType::Slash, 1nat))
    } else if c == '*' as u8 {
        Some((TokenType::Star, 1nat))
    } else if c == '!' as u8 {
        if twin {
            Some((TokenType::BangEqual, 2nat))
        } else {
            Some((TokenType::Bang, 1nat))
        }
    } else if c == '=' as u8 {
        if twin {
            Some((TokenType::EqualEqual, 2nat))
        } else {
            Some((TokenType::Equal, 1nat))
        }
    } else if c == '<' as u8 {
        if twin {
            Some((TokenType::LessEqual, 2nat))
        } else {
            Some((TokenType::Less, 1nat))
        }
    } else if c == '>' as u8 {
        if twin {
            Some((TokenType::GreaterEqual, 2nat))
        } else {
            Some((TokenType::Greater, 1nat))
        }
    } else {
        None
    }
}

/// The token of kind `kind` whose text is `src[start..end]`.
pub open spec fn lexeme(src: Seq<u8>, kind: TokenType, start: nat, end: nat, line: nat) -> Scan {
    Scan {
        kind,
        text: src.subrange(start as int, end as int),
        start,
        next: Cursor { current: end, line },
    }
}

/// The string literal whose opening quote is at `start`: a `String` token
/// with the text between the quotes, or the error token for a literal that
/// the source ends in. Line feeds in the literal count as lines.
pub open spec fn string_scan(src: Seq<u8>, start: nat, line: nat) -> Scan {
    let close = run_end(src, start + 1, Run::Quoted);
    let last = line + line_feeds(src, start + 1, close);
    if close >= src.len() {
        Scan {
            kind: TokenType::Error,
            text: "Unterminated string.".spec_bytes(),
            start,
            next: Cursor { current: close, line: last },
        }
    } else {
        Scan {
            kind: TokenType::String,
            text: src.subrange(start + 1 as int, close as int),
            start,
            next: Cursor { current: close + 1, line: last },
        }
    }
}

/// The token that starts at `at`, where no blank or comment starts.
pub open spec fn token_at(src: Seq<u8>, at: Cursor) -> Scan {
    let p = at.current;
    let c = byte_at(src, p);
    if p >= src.len() {
        lexeme(src, TokenType::Eof, p, p, at.line)
    } else if is_alpha_spec(c) {
        let end = run_end(src, p + 1, Run::Word);
        lexeme(src, keyword_kind(src.subrange(p as int, end as int)), p, end, at.line)
    } else if is_digit_spec(c) {
        lexeme(src, TokenType::Number, p, number_end(src, p + 1), at.line)
    } else if c == '"' as u8 {
        string_scan(src, p, at.line)
    } else {
        match mark(c, byte_at(src, p + 1)) {
            Some((kind, width)) => lexeme(src, kind, p, p + width, at.line),
            None => Scan {
                kind: TokenType::Error,
                text: "Unexpected character.".spec_bytes(),
                start: p,
                next: Cursor { current: p + 1, line: at.line },
            },
        }
    }
}

/// The next token from `from` on: blanks and comments are passed over, and
/// the token that follows them is scanned.
pub open spec fn scan_spec(src: Seq<u8>, from: Cursor) -> Scan {
    token_at(src, skip_blank(src, from))
}

/// The bytes of ASCII text are its characters, one byte each.
proof fn lemma_ascii_bytes(s: &str)
    requires
        vstd::string::is_ascii(s),
    ensures
        s.spec_bytes().len() == s@.len(),
        forall|i: int| 0 <= i < s@.len() ==> #[trigger] s.spec_bytes()[i] == s@[i] as u8,
{
    vstd::utf8::is_ascii_chars_encode_utf8(s@);
}

/// A word is `whole` exactly when its first `k` bytes are those of `whole`
/// and the bytes after them are `rest`, the tail of `whole`.
proof fn lemma_word_split(word: Seq<u8>, whole: Seq<u8>, rest: Seq<u8>, k: int)
    requires
        0 <= k,
        whole.len() == k + rest.len(),
        forall|i: int| 0 <= i < rest.len() ==> whole[k + i] == #[trigger] rest[i],
    ensures
        word == whole <==> (word.len() >= k && (forall|i: int|
            0 <= i < k ==> word[i] == whole[i]) && word.subrange(k, word.len() as int) == rest),
{
    if word == whole {
        assert(word.subrange(k, word.len() as int) =~= rest);
    }
    if word.len() >= k && (forall|i: int| 0 <= i < k ==> word[i] == whole[i]) && word.subrange(
        k,
        word.len() as int,
    ) == rest {
        assert forall|i: int| 0 <= i < word.len() implies word[i] == whole[i] by {
            if i >= k {
                assert(word[i] == word.subrange(k, word.len() as int)[i - k]);
            }
        }
        assert(word =~= whole);
    }
}

/// A word is the keyword `whole` exactly when its first `k` bytes are
/// those of the keyword and the bytes after them are `rest`, the keyword's
/// tail.
proof fn lemma_keyword(word: Seq<u8>, whole: &str, rest: &str, k: int)
    requires
        vstd::string::is_ascii(whole),
        vstd::string::is_ascii(rest),
        0 <= k,
        whole@.len() == k + rest@.len(),
        forall|i: int| 0 <= i < rest@.len() ==> whole@[k + i] == #[trigger] rest@[i],
    ensures
        word == whole.spec_bytes() <==> (word.len() >= k && (forall|i: int|
            0 <= i < k ==> word[i] == whole@[i] as u8) && word.subrange(k, word.len() as int)
            == rest.spec_bytes()),
{
    lemma_ascii_bytes(whole);
    lemma_ascii_bytes(rest);
    lemma_word_split(word, whole.spec_bytes(), rest.spec_bytes(), k);
}

proof fn lemma_keywords_a_to_e(word: Seq<u8>)
    ensures
        word == "and".spec_bytes() <==> (word.len() >= 1 && word[0] == 'a' as u8 && word.subrange(1, word.len() as int) == "nd".spec_bytes()),
        word == "class".spec_bytes() <==> (word.len() >= 1 && word[0] == 'c' as u8 && word.subrange(1, word.len() as int) == "lass".spec_bytes()),
        word == "else".spec_bytes() <==> (word.len() >= 1 && word[0] == 'e' as u8 && word.subrange(1, word.len() as int) == "lse".spec_bytes()),
{
    assert(word == "and".spec_bytes() <==> (word.len() >= 1 && word[0] == 'a' as u8 && word.subrange(1, word.len() as int) == "nd".spec_bytes())) by {
        reveal_strlit("and");
        reveal_strlit("nd");
        lemma_keyword(word, "and", "nd", 1);
    }
    assert(word == "class".spec_bytes() <==> (word.len() >= 1 && word[0] == 'c' as u8 && word.subrange(1, word.len() as int) == "lass".spec_bytes())) by {
        reveal_strlit("class");
        reveal_strlit("lass");
        lemma_keyword(word, "class", "lass", 1);
    }
    assert(word == "else".spec_bytes() <==> (word.len() >= 1 && word[0] == 'e' as u8 && word.subrange(1, word.len() as int) == "lse".spec_bytes())) by {
        reveal_strlit("else");
        reveal_strlit("lse");
        lemma_keyword(word, "else", "lse", 1);
    }
}

proof fn lemma_keywords_f(word: Seq<u8>)
    ensures
        word == "false".spec_bytes() <==> (word.len() >= 2 && word[0] == 'f' as u8 && word[1] == 'a' as u8 && word.subrange(2, word.len() as int) == "lse".spec_bytes()),
        word == "for".spec_bytes() <==> (word.len() >= 2 && word[0] == 'f' as u8 && word[1] == 'o' as u8 && word.subrange(2, word.len() as int) == "r".spec_bytes()),
        word == "fun".spec_bytes() <==> (word.len() >= 2 && word[0] == 'f' as u8 && word[1] == 'u' as u8 && word.subrange(2, word.len() as int) == "n".spec_bytes()),
{
    assert(word == "false".spec_bytes() <==> (word.len() >= 2 && word[0] == 'f' as u8 && word[1] == 'a' as u8 && word.subrange(2, word.len() as int) == "lse".spec_bytes())) by {
        reveal_strlit("false");
        reveal_strlit("lse");
        lemma_keyword(word, "false", "lse", 2);
    }
    assert(word == "for".spec_bytes() <==> (word.len() >= 2 && word[0] == 'f' as u8 && word[1] == 'o' as u8 && word.subrange(2, word.len() as int) == "r".spec_bytes())) by {
        reveal_strlit("for");
        reveal_strlit("r");
        lemma_keyword(word, "for", "r", 2);
    }
    assert(word == "fun".spec_bytes() <==> (word.len() >= 2 && word[0] == 'f' as u8 && word[1] == 'u' as u8 && word.subrange(2, word.len() as int) == "n".spec_bytes())) by {
        reveal_strlit("fun");
        reveal_strlit("n");
        lemma_keyword(word, "fun", "n", 2);
    }
}

proof fn lemma_keywords_i_to_p(word: Seq<u8>)
    ensures
        word == "if".spec_bytes() <==> (word.len() >= 1 && word[0] == 'i' as u8 && word.subrange(1, word.len() as int) == "f".spec_bytes()),
        word == "nil".spec_bytes() <==> (word.len() >= 1 && word[0] == 'n' as u8 && word.subrange(1, word.len() as int) == "il".spec_bytes()),
        word == "or".spec_bytes() <==> (word.len() >= 1 && word[0] == 'o' as u8 && word.subrange(1, word.len() as int) == "r".spec_bytes()),
        word == "print".spec_bytes() <==> (word.len() >= 1 && word[0] == 'p' as u8 && word.subrange(1, word.len() as int) == "rint".spec_bytes()),
{
    assert(word == "if".spec_bytes() <==> (word.len() >= 1 && word[0] == 'i' as u8 && word.subrange(1, word.len() as int) == "f".spec_bytes())) by {
        reveal_strlit("if");
        reveal_strlit("f");
        lemma_keyword(word, "if", "f", 1);
    }
    assert(word == "nil".spec_bytes() <==> (word.len() >= 1 && word[0] == 'n' as u8 && word.subrange(1, word.len() as int) == "il".spec_bytes())) by {
        reveal_strlit("nil");
        reveal_strlit("il");
        lemma_keyword(word, "nil", "il", 1);
    }
    assert(word == "or".spec_bytes() <==> (word.len() >= 1 && word[0] == 'o' as u8 && word.subrange(1, word.len() as int) == "r".spec_bytes())) by {
        reveal_strlit("or");
        reveal_strlit("r");
        lemma_keyword(word, "or", "r", 1);
    }
    assert(word == "print".spec_bytes() <==> (word.len() >= 1 && word[0] == 'p' as u8 && word.subrange(1, word.len() as int) == "rint".spec_bytes())) by {
        reveal_strlit("print");
        reveal_strlit("rint");
        lemma_keyword(word, "print", "rint", 1);
    }
}

proof fn lemma_keywords_r_to_s(word: Seq<u8>)
    ensures
        word == "return".spec_bytes() <==> (word.len() >= 1 && word[0] == 'r' as u8 && word.subrange(1, word.len() as int) == "eturn".spec_bytes()),
        word == "super".spec_bytes() <==> (word.len() >= 1 && word[0] == 's' as u8 && word.subrange(1, word.len() as int) == "uper".spec_bytes()),
{
    assert(word == "return".spec_bytes() <==> (word.len() >= 1 && word[0] == 'r' as u8 && word.subrange(1, word.len() as int) == "eturn".spec_bytes())) by {
        reveal_strlit("return");
        reveal_strlit("eturn");
        lemma_keyword(word, "return", "eturn", 1);
    }
    assert(word == "super".spec_bytes() <==> (word.len() >= 1 && word[0] == 's' as u8 && word.subrange(1, word.len() as int) == "uper".spec_bytes())) by {
        reveal_strlit("super");
        reveal_strlit("uper");
        lemma_keyword(word, "super", "uper", 1);
    }
}

proof fn lemma_keywords_t(word: Seq<u8>)
    ensures
        word == "this".spec_bytes() <==> (word.len() >= 2 && word[0] == 't' as u8 && word[1] == 'h' as u8 && word.subrange(2, word.len() as int) == "is".spec_bytes()),
        word == "true".spec_bytes() <==> (word.len() >= 2 && word[0] == 't' as u8 && word[1] == 'r' as u8 && word.subrange(2, word.len() as int) == "ue".spec_bytes()),
{
    assert(word == "this".spec_bytes() <==> (word.len() >= 2 && word[0] == 't' as u8 && word[1] == 'h' as u8 && word.subrange(2, word.len() as int) == "is".spec_bytes())) by {
        reveal_strlit("this");
        reveal_strlit("is");
        lemma_keyword(word, "this", "is", 2);
    }
    assert(word == "true".spec_bytes() <==> (word.len() >= 2 && word[0] == 't' as u8 && word[1] == 'r' as u8 && word.subrange(2, word.len() as int) == "ue".spec_bytes())) by {
        reveal_strlit("true");
        reveal_strlit("ue");
        lemma_keyword(word, "true", "ue", 2);
    }
}

proof fn lemma_keywords_v_to_w(word: Seq<u8>)
    ensures
        word == "var".spec_bytes() <==> (word.len() >= 1 && word[0] == 'v' as u8 && word.subrange(1, word.len() as int) == "ar".spec_bytes()),
        word == "while".spec_bytes() <==> (word.len() >= 1 && word[0] == 'w' as u8 && word.subrange(1, word.len() as int) == "hile".spec_bytes()),
{
    assert(word == "var".spec_bytes() <==> (word.len() >= 1 && word[0] == 'v' as u8 && word.subrange(1, word.len() as int) == "ar".spec_bytes())) by {
        reveal_strlit("var");
        reveal_strlit("ar");
        lemma_keyword(word, "var", "ar", 1);
    }
    assert(word == "while".spec_bytes() <==> (word.len() >= 1 && word[0] == 'w' as u8 && word.subrange(1, word.len() as int) == "hile".spec_bytes())) by {
        reveal_strlit("while");
        reveal_strlit("hile");
        lemma_keyword(word, "while", "hile", 1);
    }
}

/// Each keyword, told by its first byte or its first two and by the bytes
/// that follow them.
proof fn lemma_keyword_split(word: Seq<u8>)
    ensures
        word == "and".spec_bytes() <==> (word.len() >= 1 && word[0] == 'a' as u8 && word.subrange(1, word.len() as int) == "nd".spec_bytes()),
        word == "class".spec_bytes() <==> (word.len() >= 1 && word[0] == 'c' as u8 && word.subrange(1, word.len() as int) == "lass".spec_bytes()),
        word == "else".spec_bytes() <==> (word.len() >= 1 && word[0] == 'e' as u8 && word.subrange(1, word.len() as int) == "lse".spec_bytes()),
        word == "false".spec_bytes() <==> (word.len() >= 2 && word[0] == 'f' as u8 && word[1] == 'a' as u8 && word.subrange(2, word.len() as int) == "lse".spec_bytes()),
        word == "for".spec_bytes() <==> (word.len() >= 2 && word[0] == 'f' as u8 && word[1] == 'o' as u8 && word.subrange(2, word.len() as int) == "r".spec_bytes()),
        word == "fun".spec_bytes() <==> (word.len() >= 2 && word[0] == 'f' as u8 && word[1] == 'u' as u8 && word.subrange(2, word.len() as int) == "n".spec_bytes()),
        word == "if".spec_bytes() <==> (word.len() >= 1 && word[0] == 'i' as u8 && word.subrange(1, word.len() as int) == "f".spec_bytes()),
        word == "nil".spec_bytes() <==> (word.len() >= 1 && word[0] == 'n' as u8 && word.subrange(1, word.len() as int) == "il".spec_bytes()),
        word == "or".spec_bytes() <==> (word.len() >= 1 && word[0] == 'o' as u8 && word.subrange(1, word.len() as int) == "r".spec_bytes()),
        word == "print".spec_bytes() <==> (word.len() >= 1 && word[0] == 'p' as u8 && word.subrange(1, word.len() as int) == "rint".spec_bytes()),
        word == "return".spec_bytes() <==> (word.len() >= 1 && word[0] == 'r' as u8 && word.subrange(1, word.len() as int) == "eturn".spec_bytes()),
        word == "super".spec_bytes() <==> (word.len() >= 1 && word[0] == 's' as u8 && word.subrange(1, word.len() as int) == "uper".spec_bytes()),
        word == "this".spec_bytes() <==> (word.len() >= 2 && word[0] == 't' as u8 && word[1] == 'h' as u8 && word.subrange(2, word.len() as int) == "is".spec_bytes()),
        word == "true".spec_bytes() <==> (word.len() >= 2 && word[0] == 't' as u8 && word[1] == 'r' as u8 && word.subrange(2, word.len() as int) == "ue".spec_bytes()),
        word == "var".spec_bytes() <==> (word.len() >= 1 && word[0] == 'v' as u8 && word.subrange(1, word.len() as int) == "ar".spec_bytes()),
        word == "while".spec_bytes() <==> (word.len() >= 1 && word[0] == 'w' as u8 && word.subrange(1, word.len() as int) == "hile".spec_bytes()),
{
    lemma_keywords_a_to_e(word);
    lemma_keywords_f(word);
    lemma_keywords_i_to_p(word);
    lemma_keywords_r_to_s(word);
    lemma_keywords_t(word);
    lemma_keywords_v_to_w(word);
}

/// Whether the byte is a letter or the underscore.
pub fn is_alpha(c: u8) -> (r: bool)
    ensures
        r == is_alpha_spec(c),
{
    (c >= 'a' as u8 && c <= 'z' as u8) || (c >= 'A' as u8 && c <= 'Z' as u8) || c == '_' as u8
}

/// Whether the byte is a decimal digit.
pub fn is_digit(c: u8) -> (r: bool)
    ensures
        r == is_digit_spec(c),
{
    c >= '0' as u8 && c <= '9' as u8
}

impl<'a> Token<'a> {
    /// Whether the token is the one that `scan` describes.
    pub open spec fn is_scan(&self, scan: Scan) -> bool {
        &&& self.token_type == scan.kind
        &&& self.value@ == scan.text
        &&& self.line == scan.next.line
    }
}

impl<'a> Scanner<'a> {
    /// The scanner stands within the source, has counted no more lines
    /// than it has read bytes, and the source is short enough for its line
    /// count to fit.
    pub open spec fn wf(&self) -> bool {
        &&& self.start <= self.current <= self.source@.len()
        &&& self.line <= self.current + 1
        &&& self.source@.len() < usize::MAX
    }

    /// Where the next token is looked for.
    pub open spec fn cursor(&self) -> Cursor {
        Cursor { current: self.current as nat, line: self.line as nat }
    }

    /// A scanner at the start of `source`, on line 1.
    pub fn new(source: &'a str) -> (r: Self)
        requires
            source.spec_bytes().len() < usize::MAX,
        ensures
            r.wf(),
            r.source@ == source.spec_bytes(),
            r.start == 0,
            r.current == 0,
            r.line == 1,
    {
        Scanner { source: source.as_bytes(), start: 0, current: 0, line: 1 }
    }

    /// Scans the next token. At the end of the source every call returns
    /// `Eof`.
    pub fn scan_token(&mut self) -> (token: Token<'a>)
        requires
            old(self).wf(),
        ensures
            final(self).wf(),
            final(self).source == old(self).source,
            token.is_scan(scan_spec(old(self).source@, old(self).cursor())),
            final(self).cursor() == scan_spec(old(self).source@, old(self).cursor()).next,
            final(self).start == scan_spec(old(self).source@, old(self).cursor()).start,
    {
        self.skip_whitespace();

        self.start = self.current;
        if self.is_at_end() {
            return self.make_token(TokenType::Eof);
        }
        let c = self.advance();

        if is_alpha(c) {
            return self.identifier();
        }
        if is_digit(c) {
            return self.number();
        }
        if c == '(' as u8 {
            self.make_token(TokenType::LeftParen)
        } else if c == ')' as u8 {
            self.make_token(TokenType::RightParen)
        } else if c == '{' as u8 {
            self.make_token(TokenType::LeftBrace)
        } else if c == '}' as u8 {
            self.make_token(TokenType::RightBrace)
        } else if c == ';' as u8 {
            self.make_token(TokenType::Semicolon)
        } else if c == ',' as u8 {
            self.make_token(TokenType::Comma)
        } else if c == '.' as u8 {
            self.make_token(TokenType::Dot)
        } else if c == '-' as u8 {
            self.make_token(TokenType::Minus)
        } else if c == '+' as u8 {
            self.make_token(TokenType::Plus)
        } else if c == '/' as u8 {
            self.make_token(TokenType::Slash)
        } else if c == '*' as u8 {
            self.make_token(TokenType::Star)
        } else if c == '!' as u8 {
            let token_type = if self.match_('=' as u8) {
                TokenType::BangEqual
            } else {
                TokenType::Bang
            };
            self.make_token(token_type)
        } else if c == '=' as u8 {
            let token_type = if self.match_('=' as u8) {
                TokenType::EqualEqual
            } else {
                TokenType::Equal
            };
            self.make_token(token_type)
        } else if c == '<' as u8 {
            let token_type = if self.match_('=' as u8) {
                TokenType::LessEqual
            } else {
                TokenType::Less
            };
            self.make_token(token_type)
        } else if c == '>' as u8 {
            let token_type = if self.match_('=' as u8) {
                TokenType::GreaterEqual
            } else {
                TokenType::Greater
            };
            self.make_token(token_type)
        } else if c == '"' as u8 {
            self.string()
        } else {
            self.error_token("Unexpected character.")
        }
    }

    /// Passes over blanks and comments, counting the lines.
    fn skip_whitespace(&mut self)
        requires
            old(self).wf(),
        ensures
            final(self).wf(),
            final(self).source == old(self).source,
            final(self).start == old(self).start,
            final(self).cursor() == skip_blank(old(self).source@, old(self).cursor()),
    {
        loop
            invariant
                self.wf(),
                self.source == old(self).source,
                self.start == old(self).start,
                skip_blank(self.source@, self.cursor()) == skip_blank(
                    old(self).source@,
                    old(self).cursor(),
                ),
            decreases self.source@.len() - self.current,
        {
            let c = self.peek();
            if c == ' ' as u8 || c == '\r' as u8 || c == '\t' as u8 {
                self.advance();
            } else if c == '\n' as u8 {
                self.advance();
                self.line += 1;
            } else if c == '/' as u8 {
                if self.peek_next() == '/' as u8 {
                    let ghost target = run_end(self.source@, (self.current + 2) as nat, Run::Comment);
                    let ghost slash = self.current;
                    self.advance();
                    self.advance();
                    while self.peek() != '\n' as u8 && !self.is_at_end()
                        invariant
                            self.wf(),
                            self.source == old(self).source,
                            self.start == old(self).start,
                            slash + 2 <= self.current,
                            run_end(self.source@, self.current as nat, Run::Comment) == target,
                            skip_blank(
                                self.source@,
                                Cursor { current: target, line: self.line as nat },
                            ) == skip_blank(old(self).source@, old(self).cursor()),
                        decreases self.source@.len() - self.current,
                    {
                        self.advance();
                    }
                } else {
                    return ;
                }
            } else {
                return ;
            }
        }
    }

    /// The token for the word `source[start..current]`, which is a keyword
    /// where the bytes from `offset` on are those of `rest` and an
    /// identifier where they are not.
    fn check_keyword(&self, offset: usize, rest: &str, token_type: TokenType) -> (token: Token<'a>)
        requires
            self.wf(),
            self.start + offset <= self.current,
        ensures
            token.value@ == self.source@.subrange(self.start as int, self.current as int),
            token.line == self.line,
            token.token_type == if self.source@.subrange(
                self.start + offset,
                self.current as int,
            ) == rest.spec_bytes() {
                token_type
            } else {
                TokenType::Identifier
            },
    {
        let tail = slice_subrange(self.source, self.start + offset, self.current);
        let token_type = if bytes_equal(tail, rest.as_bytes()) {
            token_type
        } else {
            TokenType::Identifier
        };
        self.make_token(token_type)
    }

    /// The token for the word `source[start..current]`: the first byte, and
    /// for `f` and `t` the second, picks the one keyword the word can be.
    fn identifier_type(&self) -> (token: Token<'a>)
        requires
            self.wf(),
            self.start < self.current,
        ensures
            token.value@ == self.source@.subrange(self.start as int, self.current as int),
            token.line == self.line,
            token.token_type == keyword_kind(
                self.source@.subrange(self.start as int, self.current as int),
            ),
    {
        let ghost word = self.source@.subrange(self.start as int, self.current as int);
        proof {
            assert forall|k: int| 0 <= k <= word.len() implies #[trigger] word.subrange(
                k,
                word.len() as int,
            ) =~= self.source@.subrange(self.start + k, self.current as int) by {}
        }
        let c = self.source[self.start];
        assert(c == word[0]);
        let token = if c == 'a' as u8 {
            self.check_keyword(1, "nd", TokenType::And)
        } else if c == 'c' as u8 {
            self.check_keyword(1, "lass", TokenType::Class)
        } else if c == 'e' as u8 {
            self.check_keyword(1, "lse", TokenType::Else)
        } else if c == 'f' as u8 {
            if self.current - self.start > 1 {
                let d = self.source[self.start + 1];
                assert(d == word[1]);
                if d == 'a' as u8 {
                    self.check_keyword(2, "lse", TokenType::False)
                } else if d == 'o' as u8 {
                    self.check_keyword(2, "r", TokenType::For)
                } else if d == 'u' as u8 {
                    self.check_keyword(2, "n", TokenType::Fun)
                } else {
                    self.make_token(TokenType::Identifier)
                }
            } else {
                self.make_token(TokenType::Identifier)
            }
        } else if c == 'i' as u8 {
            self.check_keyword(1, "f", TokenType::If)
        } else if c == 'n' as u8 {
            self.check_keyword(1, "il", TokenType::Nil)
        } else if c == 'o' as u8 {
            self.check_keyword(1, "r", TokenType::Or)
        } else if c == 'p' as u8 {
            self.check_keyword(1, "rint", TokenType::Print)
        } else if c == 'r' as u8 {
            self.check_keyword(1, "eturn", TokenType::Return)
        } else if c == 's' as u8 {
            self.check_keyword(1, "uper", TokenType::Super)
        } else if c == 't' as u8 {
            if self.current - self.start > 1 {
                let d = self.source[self.start + 1];
                assert(d == word[1]);
                if d == 'h' as u8 {
                    self.check_keyword(2, "is", TokenType::This)
                } else if d == 'r' as u8 {
                    self.check_keyword(2, "ue", TokenType::True)
                } else {
                    self.make_token(TokenType::Identifier)
                }
            } else {
                self.make_token(TokenType::Identifier)
            }
        } else if c == 'v' as u8 {
            self.check_keyword(1, "ar", TokenType::Var)
        } else if c == 'w' as u8 {
            self.check_keyword(1, "hile", TokenType::While)
        } else {
            self.make_token(TokenType::Identifier)
        };
        proof {
            lemma_keyword_split(word);
        }
        token
    }

    /// Scans the rest of a word whose first byte is read.
    fn identifier(&mut self) -> (token: Token<'a>)
        requires
            old(self).wf(),
            old(self).start < old(self).current,
        ensures
            final(self).wf(),
            final(self).source == old(self).source,
            final(self).start == old(self).start,
            final(self).line == old(self).line,
            final(self).current == run_end(old(self).source@, old(self).current as nat, Run::Word),
            token.value@ == final(self).source@.subrange(
                final(self).start as int,
                final(self).current as int,
            ),
            token.line == final(self).line,
            token.token_type == keyword_kind(token.value@),
    {
        while is_alpha(self.peek()) || is_digit(self.peek())
            invariant
                self.wf(),
                self.source == old(self).source,
                self.start == old(self).start,
                self.line == old(self).line,
                old(self).current <= self.current,
                run_end(self.source@, self.current as nat, Run::Word) == run_end(
                    old(self).source@,
                    old(self).current as nat,
                    Run::Word,
                ),
            decreases self.source@.len() - self.current,
        {
            self.advance();
        }
        self.identifier_type()
    }

    /// Passes over a run of digits.
    fn digits(&mut self)
        requires
            old(self).wf(),
        ensures
            final(self).wf(),
            final(self).source == old(self).source,
            final(self).start == old(self).start,
            final(self).line == old(self).line,
            final(self).current == run_end(old(self).source@, old(self).current as nat, Run::Digits),
    {
        while is_digit(self.peek())
            invariant
                self.wf(),
                self.source == old(self).source,
                self.start == old(self).start,
                self.line == old(self).line,
                run_end(self.source@, self.current as nat, Run::Digits) == run_end(
                    old(self).source@,
                    old(self).current as nat,
                    Run::Digits,
                ),
            decreases self.source@.len() - self.current,
        {
            self.advance();
        }
    }

    /// Scans the rest of a number whose first digit is read.
    fn number(&mut self) -> (token: Token<'a>)
        requires
            old(self).wf(),
        ensures
            final(self).wf(),
            final(self).source == old(self).source,
            final(self).start == old(self).start,
            final(self).line == old(self).line,
            final(self).current == number_end(old(self).source@, old(self).current as nat),
            token.value@ == final(self).source@.subrange(
                final(self).start as int,
                final(self).current as int,
            ),
            token.line == final(self).line,
            token.token_type == TokenType::Number,
    {
        self.digits();

        // Look for a fractional part
        if self.peek() == '.' as u8 && is_digit(self.peek_next()) {
            self.advance();
            self.digits();
        }
        self.make_token(TokenType::Number)
    }

    /// Scans the rest of a string literal whose opening quote is read.
    fn string(&mut self) -> (token: Token<'a>)
        requires
            old(self).wf(),
            old(self).current == old(self).start + 1,
        ensures
            final(self).wf(),
            final(self).source == old(self).source,
            final(self).start == old(self).start,
            token.is_scan(string_scan(old(self).source@, old(self).start as nat, old(self).line as nat)),
            final(self).cursor() == string_scan(
                old(self).source@,
                old(self).start as nat,
                old(self).line as nat,
            ).next,
    {
        while self.peek() != '"' as u8 && !self.is_at_end()
            invariant
                self.wf(),
                self.source == old(self).source,
                self.start == old(self).start,
                old(self).current <= self.current,
                old(self).line + (self.current - old(self).current) <= self.current + 1,
                self.line == old(self).line + line_feeds(
                    self.source@,
                    old(self).current as nat,
                    self.current as nat,
                ),
                run_end(self.source@, self.current as nat, Run::Quoted) == run_end(
                    old(self).source@,
                    old(self).current as nat,
                    Run::Quoted,
                ),
            decreases self.source@.len() - self.current,
        {
            if self.advance() == '\n' as u8 {
                self.line += 1;
            }
        }

        if self.is_at_end() {
            self.error_token("Unterminated string.")
        } else {
            self.advance();  // the closing quote
            Token {
                token_type: TokenType::String,
                value: slice_subrange(self.source, self.start + 1, self.current - 1),
                line: self.line,
            }
        }
    }

    /// The byte at the scanner's place, 0 at the end.
    fn peek(&self) -> (c: u8)
        requires
            self.wf(),
        ensures
            c == byte_at(self.source@, self.current as nat),
    {
        if self.is_at_end() {
            0
        } else {
            self.source[self.current]
        }
    }

    /// The byte after the scanner's place, 0 where there is none.
    fn peek_next(&self) -> (c: u8)
        requires
            self.wf(),
        ensures
            c == byte_at(self.source@, (self.current + 1) as nat),
    {
        if self.current + 1 >= self.source.len() {
            0
        } else {
            self.source[self.current + 1]
        }
    }

    /// Takes the next byte when it is `expected`.
    fn match_(&mut self, expected: u8) -> (r: bool)
        requires
            old(self).wf(),
        ensures
            final(self).wf(),
            r == (old(self).current < old(self).source@.len() && old(self).source@[old(
                self,
            ).current as int] == expected),
            final(self).current == if r {
                (old(self).current + 1) as usize
            } else {
                old(self).current
            },
            final(self).source == old(self).source,
            final(self).start == old(self).start,
            final(self).line == old(self).line,
    {
        if self.is_at_end() || self.source[self.current] != expected {
            false
        } else {
            self.current += 1;
            true
        }
    }

    /// Takes the next byte.
    fn advance(&mut self) -> (c: u8)
        requires
            old(self).wf(),
            old(self).current < old(self).source@.len(),
        ensures
            final(self).wf(),
            c == old(self).source@[old(self).current as int],
            final(self).current == old(self).current + 1,
            final(self).source == old(self).source,
            final(self).start == old(self).start,
            final(self).line == old(self).line,
    {
        self.current += 1;
        self.source[self.current - 1]
    }

    /// The token of the given kind for `source[start..current]`.
    fn make_token(&self, token_type: TokenType) -> (token: Token<'a>)
        requires
            self.wf(),
        ensures
            token.token_type == token_type,
            token.value@ == self.source@.subrange(self.start as int, self.current as int),
            token.line == self.line,
    {
        Token {
            token_type,
            value: slice_subrange(self.source, self.start, self.current),
            line: self.line,
        }
    }

    /// The error token that carries `message`.
    fn error_token(&self, message: &'static str) -> (token: Token<'a>)
        ensures
            token.token_type == TokenType::Error,
            token.value@ == message.spec_bytes(),
            token.line == self.line,
    {
        Token { token_type: TokenType::Error, value: message.as_bytes(), line: self.line }
    }

    /// Whether the scanner has read the whole source.
    fn is_at_end(&self) -> (r: bool)
        requires
            self.wf(),
        ensures
            r == (self.current == self.source@.len()),
    {
        self.current == self.source.len()
    }
}

/// Passing over blanks never goes back, never leaves the source and never
/// loses a line.
pub proof fn lemma_skip_blank(src: Seq<u8>, from: Cursor)
    requires
        from.current <= src.len(),
    ensures
        from.current <= skip_blank(src, from).current <= src.len(),
        from.line <= skip_blank(src, from).line,
        skip_blank(src, from).line - from.line <= skip_blank(src, from).current - from.current,
    decreases src.len() - from.current,
{
    let c = byte_at(src, from.current);
    if from.current >= src.len() {
    } else if c == ' ' as u8 || c == '\r' as u8 || c == '\t' as u8 {
        lemma_skip_blank(src, Cursor { current: from.current + 1, line: from.line });
    } else if c == '\n' as u8 {
        lemma_skip_blank(src, Cursor { current: from.current + 1, line: from.line + 1 });
    } else if c == '/' as u8 && byte_at(src, from.current + 1) == '/' as u8 {
        lemma_run_end(src, from.current + 2, Run::Comment);
        lemma_skip_blank(
            src,
            Cursor { current: run_end(src, from.current + 2, Run::Comment), line: from.line },
        );
    }
}

/// There are no more line feeds in a stretch of the source than bytes.
pub proof fn lemma_line_feeds(src: Seq<u8>, from: nat, to: nat)
    ensures
        line_feeds(src, from, to) <= to - from || to < from,
    decreases to - from,
{
    if from < to && to <= src.len() {
        lemma_line_feeds(src, from, (to - 1) as nat);
    }
}

/// Scanning moves forward. The token starts at or after the place the scan
/// began at and ends within the source; every token but `Eof` takes at
/// least one byte, and `Eof` comes only at the end of the source. The line
/// count grows by no more than the bytes read.
pub proof fn lemma_scan_progress(src: Seq<u8>, from: Cursor)
    requires
        from.current <= src.len(),
    ensures
        from.current <= scan_spec(src, from).start <= scan_spec(src, from).next.current
            <= src.len(),
        scan_spec(src, from).kind != TokenType::Eof ==> scan_spec(src, from).start < scan_spec(
            src,
            from,
        ).next.current,
        scan_spec(src, from).kind == TokenType::Eof ==> scan_spec(src, from).next.current
            == src.len(),
        from.line <= scan_spec(src, from).next.line,
        scan_spec(src, from).next.line - from.line <= scan_spec(src, from).next.current
            - from.current,
{
    lemma_skip_blank(src, from);
    let at = skip_blank(src, from);
    let p = at.current;
    if p < src.len() {
        lemma_run_end(src, p + 1, Run::Word);
        lemma_run_end(src, p + 1, Run::Digits);
        lemma_run_end(src, run_end(src, p + 1, Run::Digits) + 1, Run::Digits);
        lemma_run_end(src, p + 1, Run::Quoted);
        lemma_line_feeds(src, p + 1, run_end(src, p + 1, Run::Quoted));
    }
}

/// The text of a token is a stretch of the source. A string literal's text
/// stands between its two quotes; the text of every other token that is
/// no error token runs from the token's start to the scanner's new place.
pub proof fn lemma_token_text(src: Seq<u8>, from: Cursor)
    requires
        from.current <= src.len(),
    ensures
        ({
            let scan = scan_spec(src, from);
            match scan.kind {
                TokenType::Error => scan.text == "Unterminated string.".spec_bytes() || scan.text
                    == "Unexpected character.".spec_bytes(),
                TokenType::String => {
                    &&& scan.start + 2 <= scan.next.current
                    &&& src[scan.start as int] == '"' as u8
                    &&& src[scan.next.current - 1] == '"' as u8
                    &&& scan.text == src.subrange(scan.start + 1 as int, scan.next.current - 1)
                    &&& forall|i: int| 0 <= i < scan.text.len() ==> scan.text[i] != '"' as u8
                },
                _ => scan.text == src.subrange(scan.start as int, scan.next.current as int),
            }
        }),
{
    lemma_skip_blank(src, from);
    let p = skip_blank(src, from).current;
    if p < src.len() {
        lemma_run_end(src, p + 1, Run::Quoted);
    }
}

} // verus!
