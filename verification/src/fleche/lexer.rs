// Tokens of the Fleche language: identifiers, numbers, string literals,
// punctuation and keywords, with whitespace and `#` comments between them.
use vstd::prelude::*;
use crate::frontend::ParseError;
use crate::pass::cps_rewrite::rewrite_01_inlining::decimal;
use crate::ir::cps_text::wide_decimal_string;
use vstd::string::StringExecFns;

verus! {

#[derive(Debug, Clone, PartialEq)]
pub enum Token {
    LowerIdent(String),
    UpperIdent(String),
    Number(i128),
    Arrow,
    Eq,
    Pipe,
    LParen,
    RParen,
    Comma,
    Data,
    Define,
    As,
    Let,
    In,
    Rec,
    Match,
    Case,
    End,
    Field,
    Of,
    Builtin,
    Extern,
    If,
    Then,
    Else,
    StringLit(Vec<u8>),
    Eof,
}

pub enum TokenV {
    LowerIdent(Seq<char>),
    UpperIdent(Seq<char>),
    Number(i128),
    Arrow,
    Eq,
    Pipe,
    LParen,
    RParen,
    Comma,
    Data,
    Define,
    As,
    Let,
    In,
    Rec,
    Match,
    Case,
    End,
    Field,
    Of,
    Builtin,
    Extern,
    If,
    Then,
    Else,
    StringLit(Seq<u8>),
    Eof,
}

impl View for Token {
    type V = TokenV;

    open spec fn view(&self) -> TokenV {
        match self {
            Token::LowerIdent(s) => TokenV::LowerIdent(s@),
            Token::UpperIdent(s) => TokenV::UpperIdent(s@),
            Token::Number(n) => TokenV::Number(*n),
            Token::Arrow => TokenV::Arrow,
            Token::Eq => TokenV::Eq,
            Token::Pipe => TokenV::Pipe,
            Token::LParen => TokenV::LParen,
            Token::RParen => TokenV::RParen,
            Token::Comma => TokenV::Comma,
            Token::Data => TokenV::Data,
            Token::Define => TokenV::Define,
            Token::As => TokenV::As,
            Token::Let => TokenV::Let,
            Token::In => TokenV::In,
            Token::Rec => TokenV::Rec,
            Token::Match => TokenV::Match,
            Token::Case => TokenV::Case,
            Token::End => TokenV::End,
            Token::Field => TokenV::Field,
            Token::Of => TokenV::Of,
            Token::Builtin => TokenV::Builtin,
            Token::Extern => TokenV::Extern,
            Token::If => TokenV::If,
            Token::Then => TokenV::Then,
            Token::Else => TokenV::Else,
            Token::StringLit(b) => TokenV::StringLit(b@),
            Token::Eof => TokenV::Eof,
        }
    }
}

// ── Character classes ────────────────────────────────────────────────────────

/// Unicode `White_Space`, which `char::is_whitespace` tests: the
/// characters from tab to carriage return, space, next line, no-break
/// space, ogham space mark, the spaces from en quad to hair space, line and
/// paragraph separator, narrow no-break space, medium mathematical space and
/// ideographic space.
pub open spec fn is_whitespace_spec(c: char) -> bool {
    let x = c as u32;
    ||| 0x09 <= x <= 0x0D
    ||| x == 0x20
    ||| x == 0x85
    ||| x == 0xA0
    ||| x == 0x1680
    ||| 0x2000 <= x <= 0x200A
    ||| x == 0x2028
    ||| x == 0x2029
    ||| x == 0x202F
    ||| x == 0x205F
    ||| x == 0x3000
}

/// Unicode `Alphabetic`.
pub uninterp spec fn is_alphabetic_spec(c: char) -> bool;

/// Unicode `Alphabetic` or numeric.
pub uninterp spec fn is_alphanumeric_spec(c: char) -> bool;

/// Unicode `Uppercase`.
pub uninterp spec fn is_uppercase_spec(c: char) -> bool;

/// How `Debug` writes a character: quoted and escaped.
pub uninterp spec fn char_debug(c: char) -> Seq<char>;

/// How `Debug` writes a string: quoted and escaped.
pub uninterp spec fn str_debug(s: Seq<char>) -> Seq<char>;

/// Whether `c` is Unicode white space, as `char::is_whitespace` tells.
fn char_is_whitespace(c: char) -> (r: bool)
    ensures
        r == is_whitespace_spec(c),
{
    let x = c as u32;
    (0x09 <= x && x <= 0x0D) || x == 0x20 || x == 0x85 || x == 0xA0 || x == 0x1680 || (0x2000 <= x && x
        <= 0x200A) || x == 0x2028 || x == 0x2029 || x == 0x202F || x == 0x205F || x == 0x3000
}

/// `char::is_alphabetic`: the Unicode `Alphabetic` property, which among
/// ASCII characters holds of the letters `a`-`z` and `A`-`Z` alone.
#[verifier::external_body]
fn char_is_alphabetic(c: char) -> (r: bool)
    ensures
        r == is_alphabetic_spec(c),
        (c as u32) < 128 ==> (r <==> ('a' <= c <= 'z' || 'A' <= c <= 'Z')),
{
    c.is_alphabetic()
}

/// `char::is_alphanumeric`, which its documentation defines as alphabetic or
/// numeric: every alphabetic character is alphanumeric, and among ASCII
/// characters it holds of the letters and the digits `0`-`9` alone.
#[verifier::external_body]
fn char_is_alphanumeric(c: char) -> (r: bool)
    ensures
        r == is_alphanumeric_spec(c),
        is_alphabetic_spec(c) ==> r,
        (c as u32) < 128 ==> (r <==> ('a' <= c <= 'z' || 'A' <= c <= 'Z' || '0' <= c <= '9')),
{
    c.is_alphanumeric()
}

/// `char::is_uppercase`: the Unicode `Uppercase` property, which among
/// ASCII characters holds of `A`-`Z` alone.
#[verifier::external_body]
pub(crate) fn char_is_uppercase(c: char) -> (r: bool)
    ensures
        r == is_uppercase_spec(c),
        (c as u32) < 128 ==> (r <==> 'A' <= c <= 'Z'),
{
    c.is_uppercase()
}

/// `format!("{:?}", c)` for a character.
#[verifier::external_body]
fn debug_char(c: char) -> (r: String)
    ensures
        r@ == char_debug(c),
{
    format!("{:?}", c)
}

/// `format!("{:?}", s)` for a string.
#[verifier::external_body]
fn debug_str(s: &str) -> (r: String)
    ensures
        r@ == str_debug(s@),
{
    format!("{:?}", s)
}

/// The decimal digits of `n`, most significant first.
fn decimal_u64(n: u64) -> (r: String)
    ensures
        r@ == decimal(n as nat),
{
    crate::digits::decimal_text(n as u128)
}

/// `input.chars().collect()`: the characters of a string, in order.
#[verifier::external_body]
pub(crate) fn chars_of(input: &str) -> (r: Vec<char>)
    ensures
        r@ == input@,
{
    input.chars().collect()
}

pub open spec fn is_digit(c: char) -> bool {
    48 <= (c as u32) <= 57
}

// ── Specification: one token ─────────────────────────────────────────────────

/// The end of a comment starting at `p`: the next newline, or the end.
pub open spec fn comment_end(s: Seq<char>, p: int) -> int
    decreases s.len() - p,
{
    if p < 0 || p >= s.len() || s[p] == '\n' {
        p
    } else {
        comment_end(s, p + 1)
    }
}

pub proof fn lemma_comment_end(s: Seq<char>, p: int)
    requires
        0 <= p,
    ensures
        p <= comment_end(s, p),
        comment_end(s, p) <= s.len() || comment_end(s, p) == p,
    decreases s.len() - p,
{
    if p < s.len() && s[p] != '\n' {
        lemma_comment_end(s, p + 1);
    }
}

/// Past whitespace and comments from `p`.
pub open spec fn skip_ws(s: Seq<char>, p: int) -> int
    decreases s.len() - p,
{
    if p < 0 || p >= s.len() {
        p
    } else if is_whitespace_spec(s[p]) {
        skip_ws(s, p + 1)
    } else if s[p] == '#' {
        proof {
            lemma_comment_end(s, p + 1);
        }
        skip_ws(s, comment_end(s, p + 1))
    } else {
        p
    }
}

/// The first position at or after `p` that holds no digit.
pub open spec fn digits_end(s: Seq<char>, p: int) -> int
    decreases s.len() - p,
{
    if p < 0 || p >= s.len() || !is_digit(s[p]) {
        p
    } else {
        digits_end(s, p + 1)
    }
}

/// The first position at or after `p` that holds no letter, digit or `_`.
pub open spec fn ident_end(s: Seq<char>, p: int) -> int
    decreases s.len() - p,
{
    if p < 0 || p >= s.len() || !(is_alphanumeric_spec(s[p]) || s[p] == '_') {
        p
    } else {
        ident_end(s, p + 1)
    }
}

/// The decimal value of the digits from `p` to `q`.
pub open spec fn digits_value(s: Seq<char>, p: int, q: int) -> nat
    decreases q - p,
{
    if q <= p {
        0
    } else {
        digits_value(s, p, q - 1) * 10 + ((s[q - 1] as u32) - 48) as nat
    }
}

pub open spec fn keyword(w: Seq<char>) -> Option<TokenV> {
    if w == "data"@ {
        Some(TokenV::Data)
    } else if w == "define"@ {
        Some(TokenV::Define)
    } else if w == "as"@ {
        Some(TokenV::As)
    } else if w == "let"@ {
        Some(TokenV::Let)
    } else if w == "in"@ {
        Some(TokenV::In)
    } else if w == "rec"@ {
        Some(TokenV::Rec)
    } else if w == "match"@ {
        Some(TokenV::Match)
    } else if w == "case"@ {
        Some(TokenV::Case)
    } else if w == "end"@ {
        Some(TokenV::End)
    } else if w == "field"@ {
        Some(TokenV::Field)
    } else if w == "of"@ {
        Some(TokenV::Of)
    } else if w == "builtin"@ {
        Some(TokenV::Builtin)
    } else if w == "extern"@ {
        Some(TokenV::Extern)
    } else if w == "if"@ {
        Some(TokenV::If)
    } else if w == "then"@ {
        Some(TokenV::Then)
    } else if w == "else"@ {
        Some(TokenV::Else)
    } else {
        None
    }
}

/// A word: its keyword, or an identifier, upper-case when its first
/// character is.
pub open spec fn word_token(w: Seq<char>) -> TokenV {
    match keyword(w) {
        Some(k) => k,
        None => if is_uppercase_spec(w[0]) {
            TokenV::UpperIdent(w)
        } else {
            TokenV::LowerIdent(w)
        },
    }
}

/// The byte that an escape `\\c` in a string literal stands for: a newline,
/// a tab, a zero byte, a backslash or a double quote.
pub open spec fn escape_byte(c: char) -> Option<u8> {
    if c == 'n' {
        Some(10u8)
    } else if c == 't' {
        Some(9u8)
    } else if c == '0' {
        Some(0u8)
    } else if c == '\\' {
        Some(92u8)
    } else if c == '"' {
        Some(34u8)
    } else {
        None
    }
}

/// The body of a string literal, read from `p` with the bytes `acc` read
/// before it: its bytes and the position after the closing quote, or a
/// message and the position where reading stopped. A character stands for
/// its low byte; a backslash and the character after it for the byte of
/// `escape_byte`, or, where that gives none, for both low bytes as they are.
pub enum StrV {
    Lit(Seq<u8>, int),
    Bad(Seq<char>, int),
}

pub open spec fn str_body(s: Seq<char>, p: int, acc: Seq<u8>) -> StrV
    decreases s.len() - p,
{
    if p < 0 || p >= s.len() {
        StrV::Bad("unterminated string literal"@, p)
    } else if s[p] == '"' {
        StrV::Lit(acc, p + 1)
    } else if s[p] == '\\' {
        if p + 1 >= s.len() {
            StrV::Bad("unterminated string literal"@, p + 1)
        } else {
            match escape_byte(s[p + 1]) {
                Some(b) => str_body(s, p + 2, acc.push(b)),
                None => str_body(s, p + 2, acc.push(92u8).push((s[p + 1] as u32) as u8)),
            }
        }
    } else {
        str_body(s, p + 1, acc.push((s[p] as u32) as u8))
    }
}

/// The value of a number literal of `m` read with or without a minus.
pub open spec fn signed_value(neg: bool, m: nat) -> i128 {
    if neg {
        (-(m as int)) as i128
    } else {
        m as i128
    }
}

/// One step of the lexer: a token and the position after it, or a message
/// and the position where reading stopped.
pub enum LexV {
    Tok(TokenV, int),
    Fail(Seq<char>, int),
}

pub open spec fn lex_spec(s: Seq<char>, p0: int) -> LexV {
    let p = skip_ws(s, p0);
    if p >= s.len() {
        LexV::Tok(TokenV::Eof, p)
    } else {
        let ch = s[p];
        if ch == '-' && p + 1 < s.len() && s[p + 1] == '>' {
            LexV::Tok(TokenV::Arrow, p + 2)
        } else if ch == '=' {
            LexV::Tok(TokenV::Eq, p + 1)
        } else if ch == '|' {
            LexV::Tok(TokenV::Pipe, p + 1)
        } else if ch == '(' {
            LexV::Tok(TokenV::LParen, p + 1)
        } else if ch == ')' {
            LexV::Tok(TokenV::RParen, p + 1)
        } else if ch == ',' {
            LexV::Tok(TokenV::Comma, p + 1)
        } else if ch == '-' && p + 1 < s.len() && is_digit(s[p + 1]) {
            LexV::Tok(
                TokenV::Number(signed_value(true, digits_value(s, p + 1, digits_end(s, p + 1)))),
                digits_end(s, p + 1),
            )
        } else if ch == '"' {
            match str_body(s, p + 1, Seq::empty()) {
                StrV::Lit(b, q) => LexV::Tok(TokenV::StringLit(b), q),
                StrV::Bad(m, q) => LexV::Fail(m, q),
            }
        } else if is_digit(ch) {
            LexV::Tok(TokenV::Number(signed_value(false, digits_value(s, p, digits_end(s, p)))), digits_end(s, p))
        } else if is_alphabetic_spec(ch) || ch == '_' {
            LexV::Tok(word_token(s.subrange(p, ident_end(s, p))), ident_end(s, p))
        } else {
            LexV::Fail("unexpected character: "@ + char_debug(ch), p)
        }
    }
}

/// The digits of a number read at `p0`, after its minus if it has one,
/// make at most 64 bits (larger ones stop the lexer).
pub open spec fn lex_fits(s: Seq<char>, p0: int) -> bool {
    let p = skip_ws(s, p0);
    &&& (0 <= p < s.len() && is_digit(s[p]) ==> digits_value(s, p, digits_end(s, p)) <= u64::MAX)
    &&& (0 <= p && p + 1 < s.len() && s[p] == '-' && is_digit(s[p + 1]) ==> digits_value(
        s,
        p + 1,
        digits_end(s, p + 1),
    ) <= u64::MAX)
}


// ── Debug text of tokens ────────────────────────────────────────────────────

/// How `Debug` writes a token.
pub open spec fn token_debug(t: TokenV) -> Seq<char> {
    match t {
        TokenV::LowerIdent(s) => "LowerIdent("@ + str_debug(s) + ")"@,
        TokenV::UpperIdent(s) => "UpperIdent("@ + str_debug(s) + ")"@,
        TokenV::Number(n) => "Number("@ + signed_decimal(n as int) + ")"@,
        TokenV::Arrow => "Arrow"@,
        TokenV::Eq => "Eq"@,
        TokenV::Pipe => "Pipe"@,
        TokenV::LParen => "LParen"@,
        TokenV::RParen => "RParen"@,
        TokenV::Comma => "Comma"@,
        TokenV::Data => "Data"@,
        TokenV::Define => "Define"@,
        TokenV::As => "As"@,
        TokenV::Let => "Let"@,
        TokenV::In => "In"@,
        TokenV::Rec => "Rec"@,
        TokenV::Match => "Match"@,
        TokenV::Case => "Case"@,
        TokenV::End => "End"@,
        TokenV::Field => "Field"@,
        TokenV::Of => "Of"@,
        TokenV::Builtin => "Builtin"@,
        TokenV::Extern => "Extern"@,
        TokenV::If => "If"@,
        TokenV::Then => "Then"@,
        TokenV::Else => "Else"@,
        TokenV::StringLit(b) => "StringLit(["@ + byte_list(b) + "])"@,
        TokenV::Eof => "Eof"@,
    }
}

/// An integer in decimal, with a minus when it is negative.
pub open spec fn signed_decimal(n: int) -> Seq<char> {
    if n < 0 {
        "-"@ + decimal((-n) as nat)
    } else {
        decimal(n as nat)
    }
}

/// The bytes in decimal, separated by `, `.
pub open spec fn byte_list(b: Seq<u8>) -> Seq<char>
    decreases b.len(),
{
    if b.len() == 0 {
        Seq::empty()
    } else if b.len() == 1 {
        decimal(b[0] as nat)
    } else {
        byte_list(b.drop_last()) + ", "@ + decimal(b.last() as nat)
    }
}

fn text(s: &str) -> (r: String)
    ensures
        r@ == s@,
{
    String::from_str(s)
}

pub(crate) fn token_text(t: &Token) -> (r: String)
    ensures
        r@ == token_debug(t@),
{
    match t {
        Token::LowerIdent(s) => {
            let mut r = text("LowerIdent(");
            let d = debug_str(s.as_str());
            r.append(d.as_str());
            r.append(")");
            r
        },
        Token::UpperIdent(s) => {
            let mut r = text("UpperIdent(");
            let d = debug_str(s.as_str());
            r.append(d.as_str());
            r.append(")");
            r
        },
        Token::Number(n) => {
            let v: i128 = *n;
            let mut r = text("Number(");
            if v < 0 {
                r.append("-");
                let m: u128 = ((-(v + 1)) as u128) + 1;
                let d = wide_decimal_string(m);
                r.append(d.as_str());
            } else {
                let d = wide_decimal_string(v as u128);
                r.append(d.as_str());
            }
            r.append(")");
            r
        },
        Token::Arrow => text("Arrow"),
        Token::Eq => text("Eq"),
        Token::Pipe => text("Pipe"),
        Token::LParen => text("LParen"),
        Token::RParen => text("RParen"),
        Token::Comma => text("Comma"),
        Token::Data => text("Data"),
        Token::Define => text("Define"),
        Token::As => text("As"),
        Token::Let => text("Let"),
        Token::In => text("In"),
        Token::Rec => text("Rec"),
        Token::Match => text("Match"),
        Token::Case => text("Case"),
        Token::End => text("End"),
        Token::Field => text("Field"),
        Token::Of => text("Of"),
        Token::Builtin => text("Builtin"),
        Token::Extern => text("Extern"),
        Token::If => text("If"),
        Token::Then => text("Then"),
        Token::Else => text("Else"),
        Token::StringLit(b) => {
            let mut r = text("StringLit([");
            let mut i: usize = 0;
            while i < b.len()
                invariant
                    i <= b@.len(),
                    r@ == "StringLit(["@ + byte_list(b@.take(i as int)),
                decreases b@.len() - i,
            {
                if i > 0 {
                    r.append(", ");
                }
                let d = decimal_u64(b[i] as u64);
                r.append(d.as_str());
                proof {
                    let t1 = b@.take(i + 1);
                    assert(t1.drop_last() =~= b@.take(i as int));
                    if i == 0 {
                        assert(byte_list(b@.take(0)) =~= Seq::<char>::empty());
                    }
                }
                assert(r@ =~= "StringLit(["@ + byte_list(b@.take(i + 1)));
                i += 1;
            }
            assert(b@.take(b@.len() as int) =~= b@);
            r.append("])");
            r
        },
        Token::Eof => text("Eof"),
    }
}

fn copy_bytes(b: &Vec<u8>) -> (r: Vec<u8>)
    ensures
        r@ == b@,
{
    let mut r: Vec<u8> = Vec::new();
    let mut i: usize = 0;
    while i < b.len()
        invariant
            i <= b@.len(),
            r@ =~= b@.take(i as int),
        decreases b@.len() - i,
    {
        r.push(b[i]);
        i += 1;
    }
    assert(b@.take(b@.len() as int) =~= b@);
    r
}

/// A copy of a token.
fn copy_token(t: &Token) -> (r: Token)
    ensures
        r@ == t@,
{
    match t {
        Token::LowerIdent(s) => Token::LowerIdent(s.clone()),
        Token::UpperIdent(s) => Token::UpperIdent(s.clone()),
        Token::Number(n) => Token::Number(*n),
        Token::Arrow => Token::Arrow,
        Token::Eq => Token::Eq,
        Token::Pipe => Token::Pipe,
        Token::LParen => Token::LParen,
        Token::RParen => Token::RParen,
        Token::Comma => Token::Comma,
        Token::Data => Token::Data,
        Token::Define => Token::Define,
        Token::As => Token::As,
        Token::Let => Token::Let,
        Token::In => Token::In,
        Token::Rec => Token::Rec,
        Token::Match => Token::Match,
        Token::Case => Token::Case,
        Token::End => Token::End,
        Token::Field => Token::Field,
        Token::Of => Token::Of,
        Token::Builtin => Token::Builtin,
        Token::Extern => Token::Extern,
        Token::If => Token::If,
        Token::Then => Token::Then,
        Token::Else => Token::Else,
        Token::StringLit(b) => Token::StringLit(copy_bytes(b)),
        Token::Eof => Token::Eof,
    }
}

/// Whether two tokens are the same token.
fn same_token(a: &Token, b: &Token) -> (r: bool)
    ensures
        r == (a@ == b@),
{
    match (a, b) {
        (Token::LowerIdent(x), Token::LowerIdent(y)) => x.eq(y),
        (Token::UpperIdent(x), Token::UpperIdent(y)) => x.eq(y),
        (Token::Number(x), Token::Number(y)) => *x == *y,
        (Token::StringLit(x), Token::StringLit(y)) => {
            assert(a@ == TokenV::StringLit(x@));
            assert(b@ == TokenV::StringLit(y@));
            if x.len() != y.len() {
                assert(x@.len() != y@.len());
                return false;
            }
            let mut i: usize = 0;
            while i < x.len()
                invariant
                    i <= x@.len() == y@.len(),
                    a@ == TokenV::StringLit(x@),
                    b@ == TokenV::StringLit(y@),
                    forall|j: int| 0 <= j < i ==> x@[j] == y@[j],
                decreases x@.len() - i,
            {
                if x[i] != y[i] {
                    assert(x@[i as int] != y@[i as int]);
                    return false;
                }
                i += 1;
            }
            assert(x@ =~= y@);
            true
        },
        (Token::Arrow, Token::Arrow) => true,
        (Token::Eq, Token::Eq) => true,
        (Token::Pipe, Token::Pipe) => true,
        (Token::LParen, Token::LParen) => true,
        (Token::RParen, Token::RParen) => true,
        (Token::Comma, Token::Comma) => true,
        (Token::Data, Token::Data) => true,
        (Token::Define, Token::Define) => true,
        (Token::As, Token::As) => true,
        (Token::Let, Token::Let) => true,
        (Token::In, Token::In) => true,
        (Token::Rec, Token::Rec) => true,
        (Token::Match, Token::Match) => true,
        (Token::Case, Token::Case) => true,
        (Token::End, Token::End) => true,
        (Token::Field, Token::Field) => true,
        (Token::Of, Token::Of) => true,
        (Token::Builtin, Token::Builtin) => true,
        (Token::Extern, Token::Extern) => true,
        (Token::If, Token::If) => true,
        (Token::Then, Token::Then) => true,
        (Token::Else, Token::Else) => true,
        (Token::Eof, Token::Eof) => true,
        _ => false,
    }
}


// ── The lexer ────────────────────────────────────────────────────────────────

/// `chars.iter().collect::<String>()`: the string of these characters.
#[verifier::external_body]
pub(crate) fn string_of_chars(chars: &[char]) -> (r: String)
    ensures
        r@ == chars@,
{
    chars.iter().collect()
}

pub proof fn lemma_digits_value_mono(s: Seq<char>, p: int, q: int, r: int)
    requires
        p <= q <= r,
        forall|i: int| p <= i < r ==> is_digit(#[trigger] s[i]),
    ensures
        digits_value(s, p, q) <= digits_value(s, p, r),
    decreases r - q,
{
    if q < r {
        lemma_digits_value_mono(s, p, q, r - 1);
        assert(is_digit(s[r - 1]));
    }
}

pub proof fn lemma_digits_end(s: Seq<char>, p: int)
    requires
        0 <= p,
    ensures
        p <= digits_end(s, p),
        digits_end(s, p) <= s.len() || digits_end(s, p) == p,
        forall|i: int| p <= i < digits_end(s, p) ==> is_digit(#[trigger] s[i]),
    decreases s.len() - p,
{
    if p < s.len() && is_digit(s[p]) {
        lemma_digits_end(s, p + 1);
    }
}

// ── Specification: the token stream ─────────────────────────────────────────

/// What the lexer's `peek` does: the token read ahead, kept for later.
pub open spec fn lx_peek(l: LexerV) -> Result<(TokenV, LexerV), Seq<char>> {
    match l.peeked {
        Some(t) => Ok((t, l)),
        None => match lex_spec(l.input, l.pos) {
            LexV::Tok(t, q) => Ok((t, LexerV { input: l.input, pos: q, peeked: Some(t) })),
            LexV::Fail(m, _) => Err(m),
        },
    }
}

/// What the lexer's `next` does: the next token, taken.
pub open spec fn lx_next(l: LexerV) -> Result<(TokenV, LexerV), Seq<char>> {
    match l.peeked {
        Some(t) => Ok((t, LexerV { peeked: None, ..l })),
        None => match lex_spec(l.input, l.pos) {
            LexV::Tok(t, q) => Ok((t, LexerV { input: l.input, pos: q, peeked: None })),
            LexV::Fail(m, _) => Err(m),
        },
    }
}

/// Looking at the next token twice gives the same token and reads no
/// further; the `next` after a look gives that token and leaves the reader
/// just where a `next` alone would have. Looking fails exactly when taking
/// would.
pub proof fn lemma_peek_then_next(l: LexerV)
    ensures
        lx_peek(l) matches Ok((t, l1)) ==> {
            &&& lx_peek(l1) == Ok::<(TokenV, LexerV), Seq<char>>((t, l1))
            &&& lx_next(l1) == lx_next(l)
            &&& lx_next(l) matches Ok((t2, _)) && t2 == t
        },
        lx_peek(l) is Err <==> lx_next(l) is Err,
{
}

/// Take the next token if it is `t`.
pub open spec fn lx_try(l: LexerV, t: TokenV) -> Result<(bool, LexerV), Seq<char>> {
    match lx_peek(l) {
        Ok((x, l1)) => if x == t {
            match lx_next(l1) {
                Ok((_, l2)) => Ok((true, l2)),
                Err(m) => Err(m),
            }
        } else {
            Ok((false, l1))
        },
        Err(m) => Err(m),
    }
}

/// Take the next token, which must be `t`.
pub open spec fn lx_expect(l: LexerV, t: TokenV) -> Result<((), LexerV), Seq<char>> {
    match lx_next(l) {
        Ok((x, l1)) => if x == t {
            Ok(((), l1))
        } else {
            Err("expected "@ + token_debug(t) + ", got "@ + token_debug(x))
        },
        Err(m) => Err(m),
    }
}

/// Take the next token, which must be a lower-case identifier.
pub open spec fn lx_lower(l: LexerV) -> Result<(Seq<char>, LexerV), Seq<char>> {
    match lx_next(l) {
        Ok((x, l1)) => match x {
            TokenV::LowerIdent(n) => Ok((n, l1)),
            _ => Err("expected lowercase identifier, got "@ + token_debug(x)),
        },
        Err(m) => Err(m),
    }
}

/// Take the next token, which must be an upper-case identifier.
pub open spec fn lx_upper(l: LexerV) -> Result<(Seq<char>, LexerV), Seq<char>> {
    match lx_next(l) {
        Ok((x, l1)) => match x {
            TokenV::UpperIdent(n) => Ok((n, l1)),
            _ => Err("expected uppercase identifier, got "@ + token_debug(x)),
        },
        Err(m) => Err(m),
    }
}

/// Take the next token, which must be a number.
pub open spec fn lx_number(l: LexerV) -> Result<(i128, LexerV), Seq<char>> {
    match lx_next(l) {
        Ok((x, l1)) => match x {
            TokenV::Number(n) => Ok((n, l1)),
            _ => Err("expected number, got "@ + token_debug(x)),
        },
        Err(m) => Err(m),
    }
}

/// How much of the input is left to read: the characters after the
/// position, and one more for a token read ahead that is not the end.
pub open spec fn mark_of(l: LexerV) -> nat {
    (if 0 <= l.pos <= l.input.len() {
        (l.input.len() - l.pos) as nat
    } else {
        0nat
    }) + match l.peeked {
        Some(t) => if t is Eof {
            0nat
        } else {
            1nat
        },
        None => 0nat,
    }
}

/// Every number in `s` fits in 64 bits, wherever reading starts.
pub open spec fn lex_ok(s: Seq<char>) -> bool {
    forall|p: int| 0 <= p <= s.len() ==> #[trigger] lex_fits(s, p)
}

// ── Reading advances ──────────────────────────────────────────────────────────

/// Every letter is a letter or digit, as `char::is_alphanumeric` says of it.
pub open spec fn letters_ok(s: Seq<char>) -> bool {
    forall|i: int| 0 <= i < s.len() && is_alphabetic_spec(#[trigger] s[i]) ==> is_alphanumeric_spec(s[i])
}

/// The position lies within the input.
pub open spec fn lexer_wf(l: LexerV) -> bool {
    0 <= l.pos <= l.input.len()
}

proof fn lemma_skip_ws_range(s: Seq<char>, p: int)
    requires
        0 <= p <= s.len(),
    ensures
        p <= skip_ws(s, p) <= s.len(),
    decreases s.len() - p,
{
    if p < s.len() {
        if is_whitespace_spec(s[p]) {
            lemma_skip_ws_range(s, p + 1);
        } else if s[p] == '#' {
            lemma_comment_end(s, p + 1);
            lemma_comment_end_bound(s, p + 1);
            lemma_skip_ws_range(s, comment_end(s, p + 1));
        }
    }
}

proof fn lemma_comment_end_bound(s: Seq<char>, p: int)
    requires
        0 <= p <= s.len(),
    ensures
        p <= comment_end(s, p) <= s.len(),
    decreases s.len() - p,
{
    if p < s.len() && s[p] != '\n' {
        lemma_comment_end_bound(s, p + 1);
    }
}

proof fn lemma_str_body_range(s: Seq<char>, p: int, acc: Seq<u8>)
    requires
        0 <= p <= s.len(),
    ensures
        str_body(s, p, acc) matches StrV::Lit(_, q) ==> p < q <= s.len(),
    decreases s.len() - p,
{
    if p < s.len() && s[p] != '"' {
        if s[p] == '\\' {
            if p + 1 < s.len() {
                match escape_byte(s[p + 1]) {
                    Some(b) => lemma_str_body_range(s, p + 2, acc.push(b)),
                    None => lemma_str_body_range(s, p + 2, acc.push(92u8).push((s[p + 1] as u32) as u8)),
                }
            }
        } else {
            lemma_str_body_range(s, p + 1, acc.push((s[p] as u32) as u8));
        }
    }
}

proof fn lemma_ident_end_range(s: Seq<char>, p: int)
    requires
        0 <= p <= s.len(),
    ensures
        p <= ident_end(s, p) <= s.len(),
    decreases s.len() - p,
{
    if p < s.len() && (is_alphanumeric_spec(s[p]) || s[p] == '_') {
        lemma_ident_end_range(s, p + 1);
    }
}

/// A token read at `p` ends at or after `p` and within the input; every
/// token but the end of the input takes at least one character.
pub proof fn lemma_lex_advances(s: Seq<char>, p: int)
    requires
        0 <= p <= s.len(),
        letters_ok(s),
    ensures
        lex_spec(s, p) matches LexV::Tok(t, q) ==> p <= q <= s.len() && (t != TokenV::Eof ==> p < q),
{
    lemma_skip_ws_range(s, p);
    let a = skip_ws(s, p);
    if a < s.len() {
        let ch = s[a];
        if ch == '-' && a + 1 < s.len() && is_digit(s[a + 1]) {
            lemma_digits_end(s, a + 2);
        } else if ch == '"' {
            lemma_str_body_range(s, a + 1, Seq::empty());
        } else if is_digit(ch) {
            lemma_digits_end(s, a + 1);
            lemma_digits_end(s, a);
        } else if is_alphabetic_spec(ch) || ch == '_' {
            assert(is_alphanumeric_spec(ch) || ch == '_');
            lemma_ident_end_range(s, a + 1);
            lemma_ident_end_range(s, a);
        }
    }
}

/// Looking at the next token reads no further than it.
pub proof fn lemma_peek_progress(l: LexerV)
    requires
        lexer_wf(l),
        letters_ok(l.input),
    ensures
        lx_peek(l) matches Ok((t, l1)) ==> lexer_wf(l1) && l1.input == l.input && l1.peeked == Some(t)
            && mark_of(l1) <= mark_of(l),
{
    if l.peeked is None {
        lemma_lex_advances(l.input, l.pos);
    }
}

/// Taking a token that is not the end of the input advances.
pub proof fn lemma_next_progress(l: LexerV)
    requires
        lexer_wf(l),
        letters_ok(l.input),
    ensures
        lx_next(l) matches Ok((t, l1)) ==> lexer_wf(l1) && l1.input == l.input && l1.peeked is None && mark_of(l1)
            <= mark_of(l) && (t != TokenV::Eof ==> mark_of(l1) < mark_of(l)),
{
    if l.peeked is None {
        lemma_lex_advances(l.input, l.pos);
    }
}

/// The state of a lexer: its input, its position, and a token read ahead.
pub struct LexerV {
    pub input: Seq<char>,
    pub pos: int,
    pub peeked: Option<TokenV>,
}

pub open spec fn peeked_view(o: Option<Token>) -> Option<TokenV> {
    match o {
        Some(t) => Some(t@),
        None => None,
    }
}

/// Reads the tokens of a source text one at a time, with one token of
/// lookahead.
pub struct Lexer {
    input: Vec<char>,
    pos: usize,
    peeked: Option<Token>,
}

impl View for Lexer {
    type V = LexerV;

    closed spec fn view(&self) -> LexerV {
        LexerV { input: self.input@, pos: self.pos as int, peeked: peeked_view(self.peeked) }
    }
}

impl Lexer {
    #[verifier::type_invariant]
    spec fn pos_in_input(self) -> bool {
        self.pos <= self.input@.len()
    }

    pub fn new(input: &str) -> (r: Self)
        ensures
            r@ == (LexerV { input: input@, pos: 0, peeked: None }),
    {
        Lexer { input: chars_of(input), pos: 0, peeked: None }
    }

    /// The next token, read ahead and kept for the following `next`.
    pub fn peek(&mut self) -> (r: Result<&Token, ParseError>)
        requires
            old(self)@.peeked is None ==> lex_fits(old(self)@.input, old(self)@.pos),
        ensures
            final(self)@.input == old(self)@.input,
            match old(self)@.peeked {
                Some(t) => r matches Ok(tok) && tok@ == t && final(self)@ == old(self)@,
                None => match lex_spec(old(self)@.input, old(self)@.pos) {
                    LexV::Tok(t, q) => r matches Ok(tok) && tok@ == t && final(self)@.pos == q && final(self)@.peeked
                        == Some(t),
                    LexV::Fail(m, q) => r matches Err(e) && e.message@ == m && final(self)@.pos == q
                        && final(self)@.peeked is None,
                },
            },
    {
        if self.peeked.is_none() {
            match self.read_token() {
                Ok(t) => {
                    proof {
                        use_type_invariant(&*self);
                    }
                    self.peeked = Some(t);
                },
                Err(e) => {
                    return Err(e);
                },
            }
        }
        match &self.peeked {
            Some(t) => Ok(t),
            None => Err(ParseError { message: String::new() }),
        }
    }

    /// The next token: the one read ahead, if any.
    pub fn next(&mut self) -> (r: Result<Token, ParseError>)
        requires
            old(self)@.peeked is None ==> lex_fits(old(self)@.input, old(self)@.pos),
        ensures
            final(self)@.input == old(self)@.input,
            final(self)@.peeked is None,
            match old(self)@.peeked {
                Some(t) => r matches Ok(tok) && tok@ == t && final(self)@.pos == old(self)@.pos,
                None => match lex_spec(old(self)@.input, old(self)@.pos) {
                    LexV::Tok(t, q) => r matches Ok(tok) && tok@ == t && final(self)@.pos == q,
                    LexV::Fail(m, q) => r matches Err(e) && e.message@ == m && final(self)@.pos == q,
                },
            },
    {
        match &self.peeked {
            Some(t) => {
                let tok = copy_token(t);
                proof {
                    use_type_invariant(&*self);
                }
                self.peeked = None;
                Ok(tok)
            },
            None => self.read_token(),
        }
    }

    /// Read the next token and fail unless it is `expected`.
    pub fn expect(&mut self, expected: &Token) -> (r: Result<(), ParseError>)
        requires
            old(self)@.peeked is None ==> lex_fits(old(self)@.input, old(self)@.pos),
        ensures
            final(self)@.input == old(self)@.input,
            final(self)@.peeked is None,
            match old(self)@.peeked {
                Some(t) => final(self)@.pos == old(self)@.pos && if t == expected@ {
                    r is Ok
                } else {
                    r matches Err(e) && e.message@ == "expected "@ + token_debug(expected@) + ", got "@ + token_debug(t)
                },
                None => match lex_spec(old(self)@.input, old(self)@.pos) {
                    LexV::Tok(t, q) => final(self)@.pos == q && if t == expected@ {
                        r is Ok
                    } else {
                        r matches Err(e) && e.message@ == "expected "@ + token_debug(expected@) + ", got "@ + token_debug(t)
                    },
                    LexV::Fail(m, q) => r matches Err(e) && e.message@ == m && final(self)@.pos == q,
                },
            },
    {
        let tok = match self.next() {
            Ok(t) => t,
            Err(e) => return Err(e),
        };
        if !same_token(&tok, expected) {
            let mut m = text("expected ");
            let a = token_text(expected);
            m.append(a.as_str());
            m.append(", got ");
            let b = token_text(&tok);
            m.append(b.as_str());
            return Err(ParseError { message: m });
        }
        Ok(())
    }

    /// How much of the input is left to read.
    pub fn mark(&self) -> (r: u128)
        ensures
            r == mark_of(self@),
    {
        proof {
            use_type_invariant(self);
        }
        let left = (self.input.len() - self.pos) as u128;
        match &self.peeked {
            Some(Token::Eof) => left,
            Some(_) => left + 1,
            None => left,
        }
    }

    /// `peek`, for a reader whose numbers all fit.
    pub fn peek_token(&mut self) -> (r: Result<&Token, ParseError>)
        requires
            lex_ok(old(self)@.input),
        ensures
            final(self)@.input == old(self)@.input,
            match lx_peek(old(self)@) {
                Ok((t, l)) => r matches Ok(x) && x@ == t && final(self)@ == l,
                Err(m) => r matches Err(e) && e.message@ == m,
            },
    {
        proof {
            use_type_invariant(&*self);
        }
        self.peek()
    }

    /// `next`, for a reader whose numbers all fit.
    pub fn next_token(&mut self) -> (r: Result<Token, ParseError>)
        requires
            lex_ok(old(self)@.input),
        ensures
            final(self)@.input == old(self)@.input,
            match lx_next(old(self)@) {
                Ok((t, l)) => r matches Ok(x) && x@ == t && final(self)@ == l,
                Err(m) => r matches Err(e) && e.message@ == m,
            },
    {
        proof {
            use_type_invariant(&*self);
        }
        self.next()
    }

    /// `expect`, for a reader whose numbers all fit.
    pub fn expect_token(&mut self, t: &Token) -> (r: Result<(), ParseError>)
        requires
            lex_ok(old(self)@.input),
        ensures
            final(self)@.input == old(self)@.input,
            match lx_expect(old(self)@, t@) {
                Ok((_, l)) => r is Ok && final(self)@ == l,
                Err(m) => r matches Err(e) && e.message@ == m,
            },
    {
        proof {
            use_type_invariant(&*self);
        }
        self.expect(t)
    }

    /// Take the next token if it is `t`.
    pub fn try_consume(&mut self, t: &Token) -> (r: Result<bool, ParseError>)
        requires
            lex_ok(old(self)@.input),
        ensures
            final(self)@.input == old(self)@.input,
            match lx_try(old(self)@, t@) {
                Ok((b, l)) => r matches Ok(x) && x == b && final(self)@ == l,
                Err(m) => r matches Err(e) && e.message@ == m,
            },
    {
        proof {
            use_type_invariant(&*self);
        }
        let found = match self.peek() {
            Ok(x) => same_token(x, t),
            Err(e) => return Err(e),
        };
        if found {
            match self.next() {
                Ok(_) => Ok(true),
                Err(e) => Err(e),
            }
        } else {
            Ok(false)
        }
    }

    /// Take the next token, which must be a lower-case identifier.
    pub fn expect_lower_identifier(&mut self) -> (r: Result<String, ParseError>)
        requires
            lex_ok(old(self)@.input),
        ensures
            final(self)@.input == old(self)@.input,
            match lx_lower(old(self)@) {
                Ok((n, l)) => r matches Ok(x) && x@ == n && final(self)@ == l,
                Err(m) => r matches Err(e) && e.message@ == m,
            },
    {
        proof {
            use_type_invariant(&*self);
        }
        match self.next() {
            Ok(Token::LowerIdent(n)) => Ok(n),
            Ok(x) => {
                let mut m = text("expected lowercase identifier, got ");
                let d = token_text(&x);
                m.append(d.as_str());
                Err(ParseError { message: m })
            },
            Err(e) => Err(e),
        }
    }

    /// Take the next token, which must be an upper-case identifier.
    pub fn expect_upper_identifier(&mut self) -> (r: Result<String, ParseError>)
        requires
            lex_ok(old(self)@.input),
        ensures
            final(self)@.input == old(self)@.input,
            match lx_upper(old(self)@) {
                Ok((n, l)) => r matches Ok(x) && x@ == n && final(self)@ == l,
                Err(m) => r matches Err(e) && e.message@ == m,
            },
    {
        proof {
            use_type_invariant(&*self);
        }
        match self.next() {
            Ok(Token::UpperIdent(n)) => Ok(n),
            Ok(x) => {
                let mut m = text("expected uppercase identifier, got ");
                let d = token_text(&x);
                m.append(d.as_str());
                Err(ParseError { message: m })
            },
            Err(e) => Err(e),
        }
    }

    /// Take the next token, which must be a number.
    pub fn expect_number(&mut self) -> (r: Result<i128, ParseError>)
        requires
            lex_ok(old(self)@.input),
        ensures
            final(self)@.input == old(self)@.input,
            match lx_number(old(self)@) {
                Ok((n, l)) => r matches Ok(x) && x == n && final(self)@ == l,
                Err(m) => r matches Err(e) && e.message@ == m,
            },
    {
        proof {
            use_type_invariant(&*self);
        }
        match self.next() {
            Ok(Token::Number(n)) => Ok(n),
            Ok(x) => {
                let mut m = text("expected number, got ");
                let d = token_text(&x);
                m.append(d.as_str());
                Err(ParseError { message: m })
            },
            Err(e) => Err(e),
        }
    }

    fn skip_whitespace(&mut self)
        ensures
            final(self)@.input == old(self)@.input,
            final(self)@.peeked == old(self)@.peeked,
            final(self)@.pos == skip_ws(old(self)@.input, old(self)@.pos),
    {
        proof {
            use_type_invariant(&*self);
        }
        let ghost s = self.input@;
        let ghost target = skip_ws(s, self.pos as int);
        let n = self.input.len();
        loop
            invariant
                self.input@ == s,
                n == s.len(),
                self.pos <= n,
                self.peeked == old(self).peeked,
                skip_ws(s, self.pos as int) == target,
            ensures
                self.input@ == s,
                self.peeked == old(self).peeked,
                self.pos == target,
            decreases n - self.pos,
        {
            let ghost p0 = self.pos;
            while self.pos < n && char_is_whitespace(self.input[self.pos])
                invariant
                    p0 <= self.pos,
                    self.input@ == s,
                    n == s.len(),
                    self.pos <= n,
                    self.peeked == old(self).peeked,
                    skip_ws(s, self.pos as int) == target,
                decreases n - self.pos,
            {
                self.pos += 1;
            }
            if self.pos < n && self.input[self.pos] == '#' {
                let ghost h = self.pos as int;
                proof {
                    lemma_comment_end(s, h + 1);
                    assert(!is_whitespace_spec(s[h]));
                    assert(skip_ws(s, h) == skip_ws(s, comment_end(s, h + 1)));
                }
                while self.pos < n && self.input[self.pos] != '\n'
                    invariant
                        self.input@ == s,
                        n == s.len(),
                        h < n,
                        p0 <= h <= self.pos <= n,
                        self.peeked == old(self).peeked,
                        s[h] == '#',
                        self.pos > h ==> comment_end(s, self.pos as int) == comment_end(s, h + 1),
                    decreases n - self.pos,
                {
                    self.pos += 1;
                }
                proof {
                    assert(self.pos > h);
                    assert(comment_end(s, self.pos as int) == self.pos);
                }
            } else {
                break;
            }
        }
    }

    fn read_token(&mut self) -> (r: Result<Token, ParseError>)
        requires
            lex_fits(old(self)@.input, old(self)@.pos),
        ensures
            final(self)@.input == old(self)@.input,
            final(self)@.peeked == old(self)@.peeked,
            match lex_spec(old(self)@.input, old(self)@.pos) {
                LexV::Tok(t, q) => r matches Ok(tok) && tok@ == t && final(self)@.pos == q,
                LexV::Fail(m, q) => r matches Err(e) && e.message@ == m && final(self)@.pos == q,
            },
    {
        self.skip_whitespace();
        proof {
            use_type_invariant(&*self);
        }
        let n = self.input.len();
        if self.pos >= n {
            return Ok(Token::Eof);
        }
        let ch = self.input[self.pos];
        if ch == '-' && self.pos + 1 < n && self.input[self.pos + 1] == '>' {
            self.pos += 2;
            return Ok(Token::Arrow);
        }
        if ch == '-' && self.pos + 1 < n && (self.input[self.pos + 1] as u32) >= 48 && (self.input[self.pos
            + 1] as u32) <= 57 {
            self.pos += 1;
            return Ok(self.read_number(true));
        }
        if ch == '=' {
            self.pos += 1;
            Ok(Token::Eq)
        } else if ch == '|' {
            self.pos += 1;
            Ok(Token::Pipe)
        } else if ch == '(' {
            self.pos += 1;
            Ok(Token::LParen)
        } else if ch == ')' {
            self.pos += 1;
            Ok(Token::RParen)
        } else if ch == ',' {
            self.pos += 1;
            Ok(Token::Comma)
        } else if ch == '"' {
            self.read_string()
        } else if (ch as u32) >= 48 && (ch as u32) <= 57 {
            Ok(self.read_number(false))
        } else if char_is_alphabetic(ch) || ch == '_' {
            Ok(self.read_ident())
        } else {
            let mut m = text("unexpected character: ");
            let d = debug_char(ch);
            m.append(d.as_str());
            Err(ParseError { message: m })
        }
    }

    fn read_string(&mut self) -> (r: Result<Token, ParseError>)
        requires
            old(self)@.pos < old(self)@.input.len(),
            old(self)@.input[old(self)@.pos] == '"',
        ensures
            final(self)@.input == old(self)@.input,
            final(self)@.peeked == old(self)@.peeked,
            match str_body(old(self)@.input, old(self)@.pos + 1, Seq::empty()) {
                StrV::Lit(b, q) => r matches Ok(tok) && tok@ == TokenV::StringLit(b) && final(self)@.pos == q,
                StrV::Bad(m, q) => r matches Err(e) && e.message@ == m && final(self)@.pos == q,
            },
    {
        let ghost s = self.input@;
        let ghost target = str_body(s, self.pos + 1, Seq::empty());
        let n = self.input.len();
        self.pos += 1;
        let mut bytes: Vec<u8> = Vec::new();
        loop
            invariant
                self.input@ == s,
                n == s.len(),
                1 <= self.pos <= n,
                self.peeked == old(self).peeked,
                str_body(s, self.pos as int, bytes@) == target,
                s == old(self)@.input,
                target == str_body(old(self)@.input, old(self)@.pos + 1, Seq::empty()),
            decreases n - self.pos,
        {
            if self.pos >= n {
                return Err(ParseError { message: text("unterminated string literal") });
            }
            let c = self.input[self.pos];
            if c == '"' {
                self.pos += 1;
                return Ok(Token::StringLit(bytes));
            }
            if c == '\\' {
                if self.pos + 1 >= n {
                    self.pos += 1;
                    return Err(ParseError { message: text("unterminated string literal") });
                }
                let e = self.input[self.pos + 1];
                let b: u8 = if e == 'n' {
                    10
                } else if e == 't' {
                    9
                } else if e == '0' {
                    0
                } else if e == '\\' {
                    92
                } else if e == '"' {
                    34
                } else {
                    bytes.push(92);
                    #[verifier::truncate] ((e as u32) as u8)
                };
                bytes.push(b);
                self.pos += 2;
            } else {
                bytes.push(#[verifier::truncate] ((c as u32) as u8));
                self.pos += 1;
            }
        }
    }

    fn read_number(&mut self, neg: bool) -> (r: Token)
        requires
            old(self)@.pos < old(self)@.input.len(),
            is_digit(old(self)@.input[old(self)@.pos]),
            digits_value(old(self)@.input, old(self)@.pos, digits_end(old(self)@.input, old(self)@.pos)) <= u64::MAX,
        ensures
            final(self)@.input == old(self)@.input,
            final(self)@.peeked == old(self)@.peeked,
            ({
                let s = old(self)@.input;
                let p = old(self)@.pos;
                r@ == TokenV::Number(signed_value(neg, digits_value(s, p, digits_end(s, p))))
                    && final(self)@.pos == digits_end(s, p)
            }),
    {
        let ghost s = self.input@;
        let ghost end = digits_end(s, self.pos as int);
        let n = self.input.len();
        let start = self.pos;
        proof {
            lemma_digits_end(s, start as int);
        }
        let mut v: u64 = 0;
        while self.pos < n && (self.input[self.pos] as u32) >= 48 && (self.input[self.pos] as u32) <= 57
            invariant
                self.input@ == s,
                n == s.len(),
                start <= self.pos <= end <= n,
                end == digits_end(s, start as int),
                self.peeked == old(self).peeked,
                digits_end(s, self.pos as int) == end,
                forall|i: int| start <= i < end ==> is_digit(#[trigger] s[i]),
                digits_value(s, start as int, end) <= u64::MAX,
                v == digits_value(s, start as int, self.pos as int),
            decreases n - self.pos,
        {
            let c = self.input[self.pos];
            proof {
                lemma_digits_end(s, self.pos + 1);
                lemma_digits_value_mono(s, start as int, self.pos + 1, end);
            }
            let d = (c as u32 - 48) as u64;
            v = v * 10 + d;
            self.pos += 1;
        }
        if neg {
            Token::Number(-(v as i128))
        } else {
            Token::Number(v as i128)
        }
    }

    fn read_ident(&mut self) -> (r: Token)
        requires
            old(self)@.pos < old(self)@.input.len(),
            is_alphabetic_spec(old(self)@.input[old(self)@.pos]) || old(self)@.input[old(self)@.pos] == '_',
        ensures
            final(self)@.input == old(self)@.input,
            final(self)@.peeked == old(self)@.peeked,
            ({
                let s = old(self)@.input;
                let p = old(self)@.pos;
                r@ == word_token(s.subrange(p, ident_end(s, p))) && final(self)@.pos == ident_end(s, p)
            }),
    {
        let ghost s = self.input@;
        let n = self.input.len();
        let start = self.pos;
        let mut chars: Vec<char> = Vec::new();
        while self.pos < n && (char_is_alphanumeric(self.input[self.pos]) || self.input[self.pos] == '_')
            invariant
                self.input@ == s,
                n == s.len(),
                start <= self.pos <= n,
                self.peeked == old(self).peeked,
                ident_end(s, self.pos as int) == ident_end(s, start as int),
                chars@ =~= s.subrange(start as int, self.pos as int),
            decreases n - self.pos,
        {
            chars.push(self.input[self.pos]);
            self.pos += 1;
        }
        assert(chars@.len() > 0);
        let w = string_of_chars(chars.as_slice());
        if w.eq(&text("data")) {
            Token::Data
        } else if w.eq(&text("define")) {
            Token::Define
        } else if w.eq(&text("as")) {
            Token::As
        } else if w.eq(&text("let")) {
            Token::Let
        } else if w.eq(&text("in")) {
            Token::In
        } else if w.eq(&text("rec")) {
            Token::Rec
        } else if w.eq(&text("match")) {
            Token::Match
        } else if w.eq(&text("case")) {
            Token::Case
        } else if w.eq(&text("end")) {
            Token::End
        } else if w.eq(&text("field")) {
            Token::Field
        } else if w.eq(&text("of")) {
            Token::Of
        } else if w.eq(&text("builtin")) {
            Token::Builtin
        } else if w.eq(&text("extern")) {
            Token::Extern
        } else if w.eq(&text("if")) {
            Token::If
        } else if w.eq(&text("then")) {
            Token::Then
        } else if w.eq(&text("else")) {
            Token::Else
        } else if char_is_uppercase(chars[0]) {
            Token::UpperIdent(w)
        } else {
            Token::LowerIdent(w)
        }
    }
}

} // verus!
