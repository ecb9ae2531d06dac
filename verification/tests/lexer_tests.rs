use encore_compiler::fleche::lexer::{Lexer, Token};

fn tokens(src: &str) -> Vec<Token> {
    let mut lx = Lexer::new(src);
    let mut out = Vec::new();
    loop {
        let t = lx.next().unwrap();
        if t == Token::Eof {
            break;
        }
        out.push(t);
    }
    out
}

fn lower(s: &str) -> Token {
    Token::LowerIdent(s.to_string())
}

#[test]
fn lex_definition_with_comment() {
    let toks = tokens("let main = x -> f x 42 # the answer\n  (Foo, _y) | \"ab\"");
    assert_eq!(
        toks,
        vec![
            Token::Let,
            lower("main"),
            Token::Eq,
            lower("x"),
            Token::Arrow,
            lower("f"),
            lower("x"),
            Token::Number(42),
            Token::LParen,
            Token::UpperIdent("Foo".to_string()),
            Token::Comma,
            lower("_y"),
            Token::RParen,
            Token::Pipe,
            Token::StringLit(b"ab".to_vec()),
        ]
    );
}

#[test]
fn lex_keywords() {
    let toks = tokens("data define as let in rec match case end field of builtin extern if then else");
    assert_eq!(
        toks,
        vec![
            Token::Data,
            Token::Define,
            Token::As,
            Token::Let,
            Token::In,
            Token::Rec,
            Token::Match,
            Token::Case,
            Token::End,
            Token::Field,
            Token::Of,
            Token::Builtin,
            Token::Extern,
            Token::If,
            Token::Then,
            Token::Else,
        ]
    );
}

#[test]
fn lex_keyword_prefixes_are_identifiers() {
    assert_eq!(tokens("lets Data2 iff"), vec![lower("lets"), Token::UpperIdent("Data2".to_string()), lower("iff")]);
}

#[test]
fn lex_largest_number() {
    assert_eq!(tokens("18446744073709551615 007"), vec![Token::Number(u64::MAX as i128), Token::Number(7)]);
}

#[test]
fn lex_string_keeps_low_bytes() {
    assert_eq!(tokens("\"é#\""), vec![Token::StringLit(vec![0xE9, b'#'])]);
}

#[test]
fn lex_only_comments_is_eof() {
    let mut lx = Lexer::new("  # one\n# two\n\t");
    assert_eq!(lx.next().unwrap(), Token::Eof);
    assert_eq!(lx.next().unwrap(), Token::Eof);
}

#[test]
fn lex_minus_without_arrow_is_rejected() {
    let mut lx = Lexer::new("- x");
    assert_eq!(lx.next().unwrap_err().message, "unexpected character: '-'");
}

#[test]
fn lex_unexpected_character() {
    let mut lx = Lexer::new("x $");
    assert_eq!(lx.next().unwrap(), lower("x"));
    assert_eq!(lx.next().unwrap_err().message, "unexpected character: '$'");
}

#[test]
fn lex_unterminated_string() {
    let mut lx = Lexer::new("\"abc");
    assert_eq!(lx.next().unwrap_err().message, "unterminated string literal");
}

#[test]
fn peek_then_next_give_the_same_token() {
    let mut lx = Lexer::new("foo bar");
    assert_eq!(*lx.peek().unwrap(), lower("foo"));
    assert_eq!(*lx.peek().unwrap(), lower("foo"));
    assert_eq!(lx.next().unwrap(), lower("foo"));
    assert_eq!(lx.next().unwrap(), lower("bar"));
}

#[test]
fn expect_accepts_the_expected_token() {
    let mut lx = Lexer::new("= ->");
    assert!(lx.expect(&Token::Eq).is_ok());
    assert!(lx.expect(&Token::Arrow).is_ok());
    assert!(lx.expect(&Token::Eof).is_ok());
}

#[test]
fn expect_reports_both_tokens() {
    let mut lx = Lexer::new("-> 3 \"a\"");
    assert_eq!(lx.expect(&Token::Eq).unwrap_err().message, "expected Eq, got Arrow");
    assert_eq!(lx.expect(&lower("x")).unwrap_err().message, "expected LowerIdent(\"x\"), got Number(3)");
    assert_eq!(
        lx.expect(&Token::StringLit(vec![1, 2])).unwrap_err().message,
        "expected StringLit([1, 2]), got StringLit([97])"
    );
}

#[test]
fn lex_string_escape_newline() {
    let mut lx = Lexer::new("\"hello\\n\"");
    assert_eq!(lx.next().unwrap(), Token::StringLit(vec![104, 101, 108, 108, 111, 10]));
    assert_eq!(lx.next().unwrap(), Token::Eof);
}

#[test]
fn lex_string_escapes_each_give_one_byte() {
    assert_eq!(tokens(r#""\t" "\0" "\\" "\"""#), vec![
        Token::StringLit(vec![9]),
        Token::StringLit(vec![0]),
        Token::StringLit(vec![92]),
        Token::StringLit(vec![34]),
    ]);
    assert_eq!(tokens(r#""a\nb\tc""#), vec![Token::StringLit(vec![97, 10, 98, 9, 99])]);
}

#[test]
fn lex_escaped_quote_does_not_end_the_string() {
    assert_eq!(tokens(r#""\"x" y"#), vec![Token::StringLit(vec![34, 120]), lower("y")]);
}

#[test]
fn lex_unknown_escape_is_kept_as_it_is() {
    let mut lx = Lexer::new(r#""a\q" b"#);
    assert_eq!(lx.next().unwrap(), Token::StringLit(vec![97, 92, 113]));
    assert_eq!(lx.next().unwrap(), lower("b"));
}

#[test]
fn lex_backslash_at_end_is_unterminated() {
    let mut lx = Lexer::new("\"ab\\");
    assert_eq!(lx.next().unwrap_err().message, "unterminated string literal");
}

#[test]
fn lex_negative_literal() {
    assert_eq!(tokens("-7"), vec![Token::Number(-7)]);
    assert_eq!(tokens("add 10 -3 ->-42"), vec![
        lower("add"),
        Token::Number(10),
        Token::Number(-3),
        Token::Arrow,
        Token::Number(-42),
    ]);
    assert_eq!(tokens("-18446744073709551615"), vec![Token::Number(-(u64::MAX as i128))]);
}

#[test]
fn lex_minus_before_a_letter_is_rejected() {
    let mut lx = Lexer::new("-x");
    assert_eq!(lx.next().unwrap_err().message, "unexpected character: '-'");
}

#[test]
fn negative_numbers_print_with_a_minus() {
    let mut lx = Lexer::new("-5");
    assert_eq!(lx.expect(&Token::Eq).unwrap_err().message, "expected Eq, got Number(-5)");
}

#[test]
fn whitespace_is_what_char_is_whitespace_says() {
    for c in (0u32..=0x10FFFF).filter_map(char::from_u32) {
        if c == '#' {
            continue;
        }
        let mut lx = Lexer::new(&c.to_string());
        assert_eq!(matches!(lx.next(), Ok(Token::Eof)), c.is_whitespace(), "{:?}", c);
    }
}
