//! The lexer: a character-level scanner turning source text into spanned
//! tokens.
//!
//! The scanner is specified against a functional model of tokenization over
//! the source's character sequence: `lex_ensures` states, for every cursor
//! position, which token (or lexical error) the next call must produce, the
//! exact UTF-8 byte span it carries, and where the cursor stands afterwards.

use crate::common::Span;
use vstd::prelude::*;
use vstd::string::StrSliceExecFns;

verus! {

/// A lexical token kind: literal forms, identifiers, keywords, operators,
/// punctuation, and end-of-input.
///
/// A float literal carries its decimal digit text with grouping underscores
/// removed (for example `"6000.9"`), so the token pins the literal's numeric
/// value exactly without committing to a binary rounding.
#[derive(Debug, Clone)]
pub enum TokenKind {
    IntegerLit(i64),
    FloatLit(String),
    Char(char),
    StringLit(String),
    BoolLit(bool),
    Null,
    Ident(String),
    Fn,
    Struct,
    Enum,
    Union,
    Impl,
    Const,
    Extern,
    Val,
    Var,
    Defer,
    While,
    For,
    In,
    Loop,
    If,
    Else,
    Match,
    Break,
    Return,
    Void,
    Undefined,
    Assign,
    PlusAssign,
    MinusAssign,
    StarAssign,
    SlashAssign,
    BitOr,
    BitXor,
    Shl,
    Shr,
    BitNot,
    OrOr,
    AndAnd,
    EqEq,
    NotEq,
    Lt,
    Gt,
    LtEq,
    GtEq,
    Plus,
    Minus,
    Star,
    Slash,
    Percent,
    Bang,
    Ampersand,
    At,
    PipeGreater,
    Arrow,
    FatArrow,
    LParen,
    RParen,
    LBrace,
    RBrace,
    LBracket,
    RBracket,
    Comma,
    Dot,
    Colon,
    Semicolon,
    Question,
    Eof,
}

/// A lexical unit: a kind and the half-open byte span it was scanned from.
#[derive(Debug, Clone)]
pub struct Token {
    pub kind: TokenKind,
    pub span: Span,
}

/// The ways lexing fails fatally.
#[derive(Debug, Clone, Copy, PartialEq, Eq, Structural)]
pub enum LexErrorKind {
    /// Input ended inside a string literal, before its closing quote.
    UnterminatedString,
    /// Input ended immediately after a character literal's opening quote.
    UnterminatedChar,
    /// Input ended where a specific character was still required.
    UnexpectedEnd,
    /// A specific character was required but another one was found.
    Expected(char),
    /// A numeric literal does not fit the integer token's range.
    MalformedNumber,
    /// A character that starts no token.
    UnknownChar(char),
}

/// A fatal lexical error, with the byte offset of the token being scanned.
#[derive(Debug, Clone, Copy, PartialEq, Eq, Structural)]
pub struct LexError {
    pub kind: LexErrorKind,
    pub pos: u32,
}

/// The whitespace class the lexer skips: the Unicode `White_Space` code
/// points, the set `char::is_whitespace` accepts.
pub open spec fn is_ws_char(c: char) -> bool {
    ||| c == ' '
    ||| c == '\t'
    ||| c == '\n'
    ||| c == '\r'
    ||| c as u32 == 0x0B
    ||| c as u32 == 0x0C
    ||| c as u32 == 0x85
    ||| c as u32 == 0xA0
    ||| c as u32 == 0x1680
    ||| 0x2000 <= c as u32 <= 0x200A
    ||| c as u32 == 0x2028
    ||| c as u32 == 0x2029
    ||| c as u32 == 0x202F
    ||| c as u32 == 0x205F
    ||| c as u32 == 0x3000
}

pub open spec fn is_digit_char(c: char) -> bool {
    48 <= c as u32 <= 57
}

/// A letter or `_`, which begins an identifier or keyword.
pub open spec fn is_ident_start_char(c: char) -> bool {
    ||| 65 <= c as u32 <= 90
    ||| 97 <= c as u32 <= 122
    ||| c == '_'
}

/// An alphanumeric-or-underscore character, which continues an identifier.
pub open spec fn is_ident_cont_char(c: char) -> bool {
    is_ident_start_char(c) || is_digit_char(c)
}

/// A digit or the grouping separator `_`, which continues a numeric run.
pub open spec fn is_digit_or_sep_char(c: char) -> bool {
    is_digit_char(c) || c == '_'
}

/// The number of bytes the UTF-8 encoding of `c` takes.
pub open spec fn char_bytes(c: char) -> int {
    if (c as u32) < 0x80 {
        1
    } else if (c as u32) < 0x800 {
        2
    } else if (c as u32) < 0x10000 {
        3
    } else {
        4
    }
}

/// The UTF-8 byte offset of character position `i` in `s`: the byte length
/// of the character prefix `s[..i]`.
pub open spec fn bytes_of(s: Seq<char>, i: int) -> int
    decreases i,
{
    if i <= 0 {
        0
    } else {
        bytes_of(s, i - 1) + char_bytes(s[i - 1])
    }
}

/// The first position at or after `i` that does not hold whitespace.
pub open spec fn ws_end(s: Seq<char>, i: int) -> int
    decreases s.len() - i,
{
    if i < 0 {
        i
    } else if i >= s.len() {
        s.len() as int
    } else if is_ws_char(s[i]) {
        ws_end(s, i + 1)
    } else {
        i
    }
}

/// The first position at or after `i` that does not continue an identifier.
pub open spec fn ident_end(s: Seq<char>, i: int) -> int
    decreases s.len() - i,
{
    if i < 0 {
        i
    } else if i >= s.len() {
        s.len() as int
    } else if is_ident_cont_char(s[i]) {
        ident_end(s, i + 1)
    } else {
        i
    }
}

/// The first position at or after `i` that holds neither a digit nor `_`.
pub open spec fn digits_end(s: Seq<char>, i: int) -> int
    decreases s.len() - i,
{
    if i < 0 {
        i
    } else if i >= s.len() {
        s.len() as int
    } else if is_digit_or_sep_char(s[i]) {
        digits_end(s, i + 1)
    } else {
        i
    }
}

/// The characters of `s[i..j)` with every `_` dropped.
pub open spec fn digit_filter(s: Seq<char>, i: int, j: int) -> Seq<char>
    decreases j - i,
{
    if i >= j {
        Seq::<char>::empty()
    } else if s[i] == '_' {
        digit_filter(s, i + 1, j)
    } else {
        seq![s[i]] + digit_filter(s, i + 1, j)
    }
}

pub open spec fn digit_val(c: char) -> int {
    c as u32 - 48
}

/// The base-10 value of a digit sequence.
pub open spec fn digits_val(d: Seq<char>) -> int
    decreases d.len(),
{
    if d.len() == 0 {
        0
    } else {
        digits_val(d.drop_last()) * 10 + digit_val(d.last())
    }
}

/// What one escape sequence `\c` in a string literal decodes to: the named
/// escapes become their control character, anything else passes through as
/// `\` followed by the character.
pub open spec fn decode_escape(c: char) -> Seq<char> {
    if c == 'n' {
        seq!['\n']
    } else if c == 't' {
        seq!['\t']
    } else if c == 'r' {
        seq!['\r']
    } else if c == '"' {
        seq!['"']
    } else if c == '\\' {
        seq!['\\']
    } else {
        seq!['\\', c]
    }
}

/// Scans a string literal body starting at `i` (just after the opening
/// quote): `Some((content, end))` gives the decoded content and the position
/// after the closing quote; `None` means the input ended first.
pub open spec fn scan_str(s: Seq<char>, i: int) -> Option<(Seq<char>, int)>
    decreases s.len() - i,
{
    if i < 0 || i >= s.len() {
        None
    } else if s[i] == '"' {
        Some((Seq::<char>::empty(), i + 1))
    } else if s[i] == '\\' {
        if i + 1 >= s.len() {
            None
        } else {
            match scan_str(s, i + 2) {
                Some(p) => Some((decode_escape(s[i + 1]) + p.0, p.1)),
                None => None,
            }
        }
    } else {
        match scan_str(s, i + 1) {
            Some(p) => Some((seq![s[i]] + p.0, p.1)),
            None => None,
        }
    }
}

/// The fixed keyword table: the token for `t` when it is a reserved word,
/// a boolean literal, or `null`.
pub open spec fn keyword_token(t: Seq<char>) -> Option<TokenKind> {
    if t == "fn"@ {
        Some(TokenKind::Fn)
    } else if t == "struct"@ {
        Some(TokenKind::Struct)
    } else if t == "enum"@ {
        Some(TokenKind::Enum)
    } else if t == "union"@ {
        Some(TokenKind::Union)
    } else if t == "impl"@ {
        Some(TokenKind::Impl)
    } else if t == "const"@ {
        Some(TokenKind::Const)
    } else if t == "extern"@ {
        Some(TokenKind::Extern)
    } else if t == "val"@ {
        Some(TokenKind::Val)
    } else if t == "var"@ {
        Some(TokenKind::Var)
    } else if t == "defer"@ {
        Some(TokenKind::Defer)
    } else if t == "while"@ {
        Some(TokenKind::While)
    } else if t == "for"@ {
        Some(TokenKind::For)
    } else if t == "in"@ {
        Some(TokenKind::In)
    } else if t == "loop"@ {
        Some(TokenKind::Loop)
    } else if t == "if"@ {
        Some(TokenKind::If)
    } else if t == "else"@ {
        Some(TokenKind::Else)
    } else if t == "match"@ {
        Some(TokenKind::Match)
    } else if t == "break"@ {
        Some(TokenKind::Break)
    } else if t == "return"@ {
        Some(TokenKind::Return)
    } else if t == "void"@ {
        Some(TokenKind::Void)
    } else if t == "undefined"@ {
        Some(TokenKind::Undefined)
    } else if t == "true"@ {
        Some(TokenKind::BoolLit(true))
    } else if t == "false"@ {
        Some(TokenKind::BoolLit(false))
    } else if t == "null"@ {
        Some(TokenKind::Null)
    } else {
        None
    }
}

/// The operator and punctuation table: given the first character of a token
/// and the character after it (if any), the token produced and how many
/// characters it consumes. `None` means `c` starts no token.
pub open spec fn op_token(c: char, next: Option<char>) -> Option<(TokenKind, int)> {
    if c == '(' {
        Some((TokenKind::LParen, 1))
    } else if c == ')' {
        Some((TokenKind::RParen, 1))
    } else if c == '{' {
        Some((TokenKind::LBrace, 1))
    } else if c == '}' {
        Some((TokenKind::RBrace, 1))
    } else if c == '[' {
        Some((TokenKind::LBracket, 1))
    } else if c == ']' {
        Some((TokenKind::RBracket, 1))
    } else if c == ',' {
        Some((TokenKind::Comma, 1))
    } else if c == '.' {
        Some((TokenKind::Dot, 1))
    } else if c == ':' {
        Some((TokenKind::Colon, 1))
    } else if c == ';' {
        Some((TokenKind::Semicolon, 1))
    } else if c == '?' {
        Some((TokenKind::Question, 1))
    } else if c == '%' {
        Some((TokenKind::Percent, 1))
    } else if c == '@' {
        Some((TokenKind::At, 1))
    } else if c == '^' {
        Some((TokenKind::BitXor, 1))
    } else if c == '~' {
        Some((TokenKind::BitNot, 1))
    } else if c == '+' {
        if next == Some('=') {
            Some((TokenKind::PlusAssign, 2))
        } else {
            Some((TokenKind::Plus, 1))
        }
    } else if c == '-' {
        if next == Some('=') {
            Some((TokenKind::MinusAssign, 2))
        } else if next == Some('>') {
            Some((TokenKind::Arrow, 2))
        } else {
            Some((TokenKind::Minus, 1))
        }
    } else if c == '*' {
        if next == Some('=') {
            Some((TokenKind::StarAssign, 2))
        } else {
            Some((TokenKind::Star, 1))
        }
    } else if c == '/' {
        if next == Some('=') {
            Some((TokenKind::SlashAssign, 2))
        } else {
            Some((TokenKind::Slash, 1))
        }
    } else if c == '!' {
        if next == Some('=') {
            Some((TokenKind::NotEq, 2))
        } else {
            Some((TokenKind::Bang, 1))
        }
    } else if c == '|' {
        if next == Some('|') {
            Some((TokenKind::OrOr, 2))
        } else if next == Some('>') {
            Some((TokenKind::PipeGreater, 2))
        } else {
            Some((TokenKind::BitOr, 1))
        }
    } else if c == '&' {
        if next == Some('&') {
            Some((TokenKind::AndAnd, 2))
        } else {
            Some((TokenKind::Ampersand, 1))
        }
    } else if c == '>' {
        if next == Some('=') {
            Some((TokenKind::GtEq, 2))
        } else if next == Some('>') {
            Some((TokenKind::Shr, 2))
        } else {
            Some((TokenKind::Gt, 1))
        }
    } else if c == '<' {
        if next == Some('=') {
            Some((TokenKind::LtEq, 2))
        } else if next == Some('<') {
            Some((TokenKind::Shl, 2))
        } else {
            Some((TokenKind::Lt, 1))
        }
    } else if c == '=' {
        if next == Some('=') {
            Some((TokenKind::EqEq, 2))
        } else if next == Some('>') {
            Some((TokenKind::FatArrow, 2))
        } else {
            Some((TokenKind::Assign, 1))
        }
    } else {
        None
    }
}

/// True when a numeric run ending at `e1` continues as a float: a `.`
/// immediately followed by a digit.
pub open spec fn has_fraction(s: Seq<char>, e1: int) -> bool {
    &&& 0 <= e1
    &&& e1 + 1 < s.len()
    &&& s[e1] == '.'
    &&& is_digit_char(s[e1 + 1])
}

/// What scanning a numeric literal that starts at `j` must produce.
pub open spec fn number_ensures(
    s: Seq<char>,
    j: int,
    r: Result<Token, LexError>,
    i2: int,
) -> bool {
    let e1 = digits_end(s, j);
    if has_fraction(s, e1) {
        let e2 = digits_end(s, e1 + 1);
        let text = digit_filter(s, j, e1) + seq!['.'] + digit_filter(s, e1 + 1, e2);
        &&& r matches Ok(t) && (t.kind matches TokenKind::FloatLit(x) && x@ == text)
            && t.span.start as int == bytes_of(s, j) && t.span.end as int == bytes_of(s, e2)
        &&& i2 == e2
    } else {
        let v = digits_val(digit_filter(s, j, e1));
        if v <= i64::MAX {
            &&& r matches Ok(t) && (t.kind matches TokenKind::IntegerLit(n) && n == v)
                && t.span.start as int == bytes_of(s, j) && t.span.end as int == bytes_of(s, e1)
            &&& i2 == e1
        } else {
            &&& r matches Err(e) && e.kind == LexErrorKind::MalformedNumber && e.pos as int
                == bytes_of(s, j)
            &&& i2 == e1
        }
    }
}

/// What scanning an identifier or keyword that starts at `j` must produce.
pub open spec fn ident_ensures(s: Seq<char>, j: int, r: Result<Token, LexError>, i2: int) -> bool {
    let e = ident_end(s, j);
    let text = s.subrange(j, e);
    &&& i2 == e
    &&& match keyword_token(text) {
        Some(k) => r matches Ok(t) && t.kind == k && t.span.start as int == bytes_of(s, j)
            && t.span.end as int == bytes_of(s, e),
        None => r matches Ok(t) && (t.kind matches TokenKind::Ident(x) && x@ == text)
            && t.span.start as int == bytes_of(s, j) && t.span.end as int == bytes_of(s, e),
    }
}

/// What scanning a string literal whose opening quote stands at `j` must
/// produce.
pub open spec fn string_ensures(s: Seq<char>, j: int, r: Result<Token, LexError>, i2: int) -> bool {
    match scan_str(s, j + 1) {
        Some(p) => {
            &&& r matches Ok(t) && (t.kind matches TokenKind::StringLit(x) && x@ == p.0)
                && t.span.start as int == bytes_of(s, j) && t.span.end as int == bytes_of(s, p.1)
            &&& i2 == p.1
        },
        None => {
            &&& r matches Err(e) && e.kind == LexErrorKind::UnterminatedString && e.pos as int
                == bytes_of(s, j)
            &&& i2 == s.len()
        },
    }
}

/// What scanning a character literal whose opening quote stands at `j` must
/// produce: exactly one character, then the closing quote.
pub open spec fn char_lit_ensures(
    s: Seq<char>,
    j: int,
    r: Result<Token, LexError>,
    i2: int,
) -> bool {
    if j + 1 >= s.len() {
        &&& r matches Err(e) && e.kind == LexErrorKind::UnterminatedChar && e.pos as int
            == bytes_of(s, j)
        &&& i2 == j + 1
    } else if j + 2 >= s.len() {
        &&& r matches Err(e) && e.kind == LexErrorKind::UnexpectedEnd && e.pos as int == bytes_of(
            s,
            j,
        )
        &&& i2 == j + 2
    } else if s[j + 2] != '\'' {
        &&& r matches Err(e) && e.kind == LexErrorKind::Expected('\'') && e.pos as int == bytes_of(
            s,
            j,
        )
        &&& i2 == j + 3
    } else {
        &&& r matches Ok(t) && (t.kind matches TokenKind::Char(c) && c == s[j + 1])
            && t.span.start as int == bytes_of(s, j) && t.span.end as int == bytes_of(s, j + 3)
        &&& i2 == j + 3
    }
}

/// The full functional model of one `next_token` call on source `s` with the
/// cursor at `i0`: leading whitespace is skipped, the first character picks
/// the token class, and the result, its byte span, and the final cursor `i2`
/// are all pinned.
pub open spec fn lex_ensures(s: Seq<char>, i0: int, r: Result<Token, LexError>, i2: int) -> bool {
    let j = ws_end(s, i0);
    if j >= s.len() {
        &&& r matches Ok(t) && t.kind is Eof && t.span.start as int == bytes_of(s, s.len() as int)
            && t.span.end as int == bytes_of(s, s.len() as int)
        &&& i2 == s.len()
    } else {
        let c = s[j];
        if is_digit_char(c) {
            number_ensures(s, j, r, i2)
        } else if is_ident_start_char(c) {
            ident_ensures(s, j, r, i2)
        } else if c == '"' {
            string_ensures(s, j, r, i2)
        } else if c == '\'' {
            char_lit_ensures(s, j, r, i2)
        } else {
            match op_token(c, if j + 1 < s.len() {
                Some(s[j + 1])
            } else {
                None::<char>
            }) {
                Some(kn) => {
                    &&& r matches Ok(t) && t.kind == kn.0 && t.span.start as int == bytes_of(s, j)
                        && t.span.end as int == bytes_of(s, j + kn.1)
                    &&& i2 == j + kn.1
                },
                None => {
                    &&& r matches Err(e) && e.kind == LexErrorKind::UnknownChar(c) && e.pos as int
                        == bytes_of(s, j)
                    &&& i2 == j + 1
                },
            }
        }
    }
}

/// Law: keyword table completeness. When the token after the skipped
/// whitespace begins like an identifier, `next_token` (whose postcondition
/// is `lex_ensures`) yields the keyword token exactly for the reserved words,
/// boolean literals and `null` of the keyword table, and an identifier token
/// carrying the exact source text for every other spelling.
pub proof fn lemma_keyword_classification(
    s: Seq<char>,
    i0: int,
    r: Result<Token, LexError>,
    i2: int,
)
    requires
        lex_ensures(s, i0, r, i2),
        0 <= i0,
        ws_end(s, i0) < s.len(),
        is_ident_start_char(s[ws_end(s, i0)]),
    ensures
        ({
            let j = ws_end(s, i0);
            let text = s.subrange(j, ident_end(s, j));
            match keyword_token(text) {
                Some(kw) => r matches Ok(t) && t.kind == kw,
                None => r matches Ok(t) && (t.kind matches TokenKind::Ident(x) && x@ == text),
            }
        }),
{
}

/// Byte offsets never decrease along the input.
pub proof fn lemma_bytes_of_mono(s: Seq<char>, i: int, j: int)
    requires
        i <= j,
    ensures
        bytes_of(s, i) <= bytes_of(s, j),
    decreases j - i,
{
    if i < j {
        lemma_bytes_of_mono(s, i, j - 1);
    }
}

/// A character prefix takes at least one byte per character.
pub proof fn lemma_bytes_of_lower(s: Seq<char>, i: int)
    requires
        0 <= i,
    ensures
        bytes_of(s, i) >= i,
    decreases i,
{
    if i > 0 {
        lemma_bytes_of_lower(s, i - 1);
    }
}

/// Extending a scan region by one character extends its filtered digits:
/// a `_` is dropped, anything else is appended.
proof fn lemma_digit_filter_snoc(s: Seq<char>, a: int, b: int)
    requires
        0 <= a <= b < s.len(),
    ensures
        digit_filter(s, a, b + 1) == (if s[b] == '_' {
            digit_filter(s, a, b)
        } else {
            digit_filter(s, a, b).push(s[b])
        }),
    decreases b - a,
{
    if a < b {
        lemma_digit_filter_snoc(s, a + 1, b);
        if s[a] != '_' && s[b] != '_' {
            assert(seq![s[a]] + digit_filter(s, a + 1, b).push(s[b]) =~= (seq![s[a]]
                + digit_filter(s, a + 1, b)).push(s[b]));
        }
    } else {
        assert(digit_filter(s, b + 1, b + 1) =~= Seq::<char>::empty());
        if s[b] == '_' {
            assert(digit_filter(s, a, b + 1) =~= digit_filter(s, a, b));
        } else {
            assert(digit_filter(s, a, b + 1) =~= digit_filter(s, a, b).push(s[b]));
        }
    }
}

/// Appending a digit multiplies the value by ten and adds the digit.
proof fn lemma_digits_val_push(d: Seq<char>, c: char)
    ensures
        digits_val(d.push(c)) == digits_val(d) * 10 + digit_val(c),
{
    assert(d.push(c).drop_last() =~= d);
    assert(d.push(c).last() == c);
}

/// Relies on `String::push`: appends the given character to the end of the
/// string.
#[verifier::external_body]
fn push_char(s: &mut String, c: char)
    ensures
        final(s)@ == old(s)@.push(c),
{
    s.push(c);
}

fn char_len_utf8(c: char) -> (n: u32)
    ensures
        n as int == char_bytes(c),
{
    let u = c as u32;
    if u < 0x80 {
        1
    } else if u < 0x800 {
        2
    } else if u < 0x10000 {
        3
    } else {
        4
    }
}

fn is_ws(c: char) -> (b: bool)
    ensures
        b == is_ws_char(c),
{
    let u = c as u32;
    u == 32 || u == 9 || u == 10 || u == 13 || u == 0x0B || u == 0x0C || u == 0x85 || u == 0xA0
        || u == 0x1680 || (0x2000 <= u && u <= 0x200A) || u == 0x2028 || u == 0x2029 || u == 0x202F
        || u == 0x205F || u == 0x3000
}

fn is_digit(c: char) -> (b: bool)
    ensures
        b == is_digit_char(c),
{
    let u = c as u32;
    48 <= u && u <= 57
}

fn is_ident_start(c: char) -> (b: bool)
    ensures
        b == is_ident_start_char(c),
{
    let u = c as u32;
    (65 <= u && u <= 90) || (97 <= u && u <= 122) || u == 95
}

fn is_ident_cont(c: char) -> (b: bool)
    ensures
        b == is_ident_cont_char(c),
{
    is_ident_start(c) || is_digit(c)
}

/// A character-cursor scanner over an owned copy of the source characters,
/// tracking both the character index and the UTF-8 byte offset.
pub struct Lexer {
    chars: Vec<char>,
    idx: usize,
    pos: u32,
}

impl Lexer {
    /// The source as a character sequence.
    pub closed spec fn src(&self) -> Seq<char> {
        self.chars@
    }

    /// The character index of the cursor.
    pub closed spec fn cursor(&self) -> int {
        self.idx as int
    }

    /// Well-formedness: the cursor is inside the input, the byte position
    /// agrees with the cursor, and every byte offset fits a span's `u32`.
    pub closed spec fn wf(&self) -> bool {
        &&& self.idx <= self.chars@.len()
        &&& self.pos as int == bytes_of(self.chars@, self.idx as int)
        &&& bytes_of(self.chars@, self.chars@.len() as int) <= u32::MAX
        &&& self.chars@.len() <= u32::MAX
    }

    /// Creates a lexer at the start of `input`. The input's byte length must
    /// fit the `u32` span representation; [`fits_span_range`] checks exactly
    /// this at run time.
    pub fn new(input: &str) -> (lx: Lexer)
        requires
            bytes_of(input@, input@.len() as int) <= u32::MAX,
        ensures
            lx.wf(),
            lx.src() == input@,
            lx.cursor() == 0,
    {
        let n = input.unicode_len();
        let mut chars: Vec<char> = Vec::with_capacity(n);
        let mut i: usize = 0;
        while i < n
            invariant
                i <= n,
                n == input@.len(),
                chars@.len() == i,
                forall|j: int| 0 <= j < i ==> chars@[j] == input@[j],
            decreases n - i,
        {
            chars.push(input.get_char(i));
            i += 1;
        }
        proof {
            assert(chars@ =~= input@);
            lemma_bytes_of_lower(input@, input@.len() as int);
        }
        Lexer { chars, idx: 0, pos: 0 }
    }

    /// Whether `input`'s UTF-8 byte length fits the `u32` span
    /// representation, as [`Lexer::new`] requires.
    pub fn fits_span_range(input: &str) -> (b: bool)
        ensures
            b == (bytes_of(input@, input@.len() as int) <= u32::MAX),
    {
        let n = input.unicode_len();
        let mut i: usize = 0;
        let mut total: u64 = 0;
        while i < n
            invariant
                i <= n,
                n == input@.len(),
                total as int == bytes_of(input@, i as int),
                total <= u32::MAX,
            decreases n - i,
        {
            let b = char_len_utf8(input.get_char(i)) as u64;
            if total + b > u32::MAX as u64 {
                proof {
                    lemma_bytes_of_mono(input@, i as int + 1, input@.len() as int);
                }
                return false;
            }
            total = total + b;
            i += 1;
        }
        true
    }

    /// Consumes and returns the character at the cursor, if any, advancing
    /// both the character index and the byte position.
    fn advance(&mut self) -> (r: Option<char>)
        requires
            old(self).wf(),
        ensures
            final(self).wf(),
            final(self).src() == old(self).src(),
            old(self).cursor() < old(self).src().len() ==> r == Some(
                old(self).src()[old(self).cursor()],
            ) && final(self).cursor() == old(self).cursor() + 1,
            old(self).cursor() >= old(self).src().len() ==> r is None && *final(self) == *old(self),
    {
        if self.idx < self.chars.len() {
            let c = self.chars[self.idx];
            proof {
                lemma_bytes_of_mono(self.chars@, self.idx as int + 1, self.chars@.len() as int);
            }
            self.idx = self.idx + 1;
            self.pos = self.pos + char_len_utf8(c);
            Some(c)
        } else {
            None
        }
    }

    /// Consumes one character, which must be `expected`; reports which
    /// requirement failed otherwise.
    fn consume(&mut self, expected: char) -> (r: Result<(), LexErrorKind>)
        requires
            old(self).wf(),
        ensures
            final(self).wf(),
            final(self).src() == old(self).src(),
            old(self).cursor() < old(self).src().len() ==> final(self).cursor() == old(
                self,
            ).cursor() + 1 && r == (if old(self).src()[old(self).cursor()] == expected {
                Result::<(), LexErrorKind>::Ok(())
            } else {
                Result::<(), LexErrorKind>::Err(LexErrorKind::Expected(expected))
            }),
            old(self).cursor() >= old(self).src().len() ==> *final(self) == *old(self) && r
                == Result::<(), LexErrorKind>::Err(LexErrorKind::UnexpectedEnd),
    {
        match self.advance() {
            Some(c) => {
                if c == expected {
                    Ok(())
                } else {
                    Err(LexErrorKind::Expected(expected))
                }
            },
            None => Err(LexErrorKind::UnexpectedEnd),
        }
    }

    /// The character at the cursor, without consuming it.
    fn peek(&self) -> (r: Option<char>)
        ensures
            r == (if self.cursor() < self.src().len() {
                Some(self.src()[self.cursor()])
            } else {
                None::<char>
            }),
    {
        if self.idx < self.chars.len() {
            Some(self.chars[self.idx])
        } else {
            None
        }
    }

    /// The character one past the cursor, without consuming anything.
    fn peek_next(&self) -> (r: Option<char>)
        requires
            self.wf(),
        ensures
            r == (if self.cursor() + 1 < self.src().len() {
                Some(self.src()[self.cursor() + 1])
            } else {
                None::<char>
            }),
    {
        if self.idx < self.chars.len() && self.idx + 1 < self.chars.len() {
            Some(self.chars[self.idx + 1])
        } else {
            None
        }
    }

    /// Advances the cursor to the first non-whitespace position.
    fn skip_whitespace(&mut self)
        requires
            old(self).wf(),
        ensures
            final(self).wf(),
            final(self).src() == old(self).src(),
            final(self).cursor() == ws_end(old(self).src(), old(self).cursor()),
    {
        loop
            invariant
                self.wf(),
                self.src() == old(self).src(),
                0 <= old(self).cursor() <= self.cursor() <= self.src().len(),
                ws_end(self.src(), old(self).cursor()) == ws_end(self.src(), self.cursor()),
            decreases self.src().len() - self.cursor(),
        {
            match self.peek() {
                Some(c) => {
                    if is_ws(c) {
                        self.advance();
                    } else {
                        return ;
                    }
                },
                None => {
                    return ;
                },
            }
        }
    }

    /// Scans the rest of an identifier or keyword whose first character `c`
    /// was just consumed, and classifies the text against the keyword table.
    fn parse_ident(&mut self, c: char) -> (k: TokenKind)
        requires
            old(self).wf(),
            1 <= old(self).cursor() <= old(self).src().len(),
            old(self).src()[old(self).cursor() - 1] == c,
            is_ident_start_char(c),
        ensures
            final(self).wf(),
            final(self).src() == old(self).src(),
            final(self).cursor() == ident_end(old(self).src(), old(self).cursor() - 1),
            ({
                let s = old(self).src();
                let start = old(self).cursor() - 1;
                let text = s.subrange(start, ident_end(s, start));
                match keyword_token(text) {
                    Some(kw) => k == kw,
                    None => k matches TokenKind::Ident(x) && x@ == text,
                }
            }),
    {
        let ghost start = old(self).cursor() - 1;
        let mut ident = String::new();
        push_char(&mut ident, c);
        proof {
            assert(ident@ =~= self.src().subrange(start, self.cursor()));
        }
        loop
            invariant
                self.wf(),
                self.src() == old(self).src(),
                1 <= old(self).cursor() <= self.cursor() <= self.src().len(),
                start == old(self).cursor() - 1,
                ident@ == self.src().subrange(start, self.cursor()),
                ident_end(self.src(), start) == ident_end(self.src(), self.cursor()),
            ensures
                self.wf(),
                self.src() == old(self).src(),
                ident@ == self.src().subrange(start, self.cursor()),
                self.cursor() == ident_end(self.src(), start),
            decreases self.src().len() - self.cursor(),
        {
            match self.peek() {
                Some(nc) => {
                    if is_ident_cont(nc) {
                        proof {
                            assert(ident_end(self.src(), self.cursor()) == ident_end(
                                self.src(),
                                self.cursor() + 1,
                            ));
                        }
                        push_char(&mut ident, nc);
                        self.advance();
                        proof {
                            assert(ident@ =~= self.src().subrange(start, self.cursor()));
                        }
                    } else {
                        proof {
                            assert(ident_end(self.src(), self.cursor()) == self.cursor());
                        }
                        break ;
                    }
                },
                None => {
                    proof {
                        assert(ident_end(self.src(), self.cursor()) == self.cursor());
                    }
                    break ;
                },
            }
        }
        keyword_lookup(ident)
    }

    /// Scans the rest of a numeric literal whose first digit `c` was just
    /// consumed: digits and `_` separators, then at most one decimal point,
    /// accepted only when a digit follows it immediately.
    fn parse_number(&mut self, c: char) -> (r: Result<TokenKind, LexErrorKind>)
        requires
            old(self).wf(),
            1 <= old(self).cursor() <= old(self).src().len(),
            old(self).src()[old(self).cursor() - 1] == c,
            is_digit_char(c),
        ensures
            final(self).wf(),
            final(self).src() == old(self).src(),
            ({
                let s = old(self).src();
                let start = old(self).cursor() - 1;
                let e1 = digits_end(s, start);
                if has_fraction(s, e1) {
                    let e2 = digits_end(s, e1 + 1);
                    let text = digit_filter(s, start, e1) + seq!['.'] + digit_filter(
                        s,
                        e1 + 1,
                        e2,
                    );
                    &&& final(self).cursor() == e2
                    &&& r matches Ok(k) && (k matches TokenKind::FloatLit(x) && x@ == text)
                } else {
                    let v = digits_val(digit_filter(s, start, e1));
                    &&& final(self).cursor() == e1
                    &&& (if v <= i64::MAX {
                        r matches Ok(k) && (k matches TokenKind::IntegerLit(n) && n == v)
                    } else {
                        r == Result::<TokenKind, LexErrorKind>::Err(LexErrorKind::MalformedNumber)
                    })
                }
            }),
    {
        let ghost s = old(self).src();
        let ghost start = old(self).cursor() - 1;
        let mut text = String::new();
        push_char(&mut text, c);
        let mut val: Option<i64> = Some(((c as u32) - 48) as i64);
        proof {
            lemma_digit_filter_snoc(s, start, start);
            assert(digit_filter(s, start, start) =~= Seq::<char>::empty());
            assert(text@ =~= digit_filter(s, start, self.cursor()));
            assert(text@.drop_last() =~= Seq::<char>::empty());
            assert(digits_val(Seq::<char>::empty()) == 0);
            assert(digits_val(text@) == digit_val(c));
        }
        loop
            invariant
                self.wf(),
                self.src() == s,
                s == old(self).src(),
                start == old(self).cursor() - 1,
                0 <= start < self.cursor() <= s.len(),
                digits_end(s, start) == digits_end(s, self.cursor()),
                text@ == digit_filter(s, start, self.cursor()),
                digits_val(text@) >= 0,
                (match val {
                    Some(v) => v as int == digits_val(text@),
                    None => digits_val(text@) > i64::MAX,
                }),
            ensures
                self.wf(),
                self.src() == s,
                0 <= start < self.cursor() <= s.len(),
                self.cursor() == digits_end(s, start),
                text@ == digit_filter(s, start, self.cursor()),
                digits_val(text@) >= 0,
                (match val {
                    Some(v) => v as int == digits_val(text@),
                    None => digits_val(text@) > i64::MAX,
                }),
            decreases s.len() - self.cursor(),
        {
            match self.peek() {
                Some(nc) => {
                    if is_digit(nc) {
                        proof {
                            assert(digits_end(s, self.cursor()) == digits_end(
                                s,
                                self.cursor() + 1,
                            ));
                            lemma_digit_filter_snoc(s, start, self.cursor());
                            lemma_digits_val_push(text@, nc);
                        }
                        let stepped = mul_add_digit(val, nc);
                        val = stepped;
                        push_char(&mut text, nc);
                        self.advance();
                    } else if nc == '_' {
                        proof {
                            assert(digits_end(s, self.cursor()) == digits_end(
                                s,
                                self.cursor() + 1,
                            ));
                            lemma_digit_filter_snoc(s, start, self.cursor());
                        }
                        self.advance();
                    } else {
                        proof {
                            assert(digits_end(s, self.cursor()) == self.cursor());
                        }
                        break ;
                    }
                },
                None => {
                    proof {
                        assert(digits_end(s, self.cursor()) == self.cursor());
                    }
                    break ;
                },
            }
        }
        let ghost e1 = digits_end(s, start);
        if let Some(dot) = self.peek() {
            if dot == '.' {
                if let Some(d2) = self.peek_next() {
                    if is_digit(d2) {
                        self.advance();
                        self.advance();
                        push_char(&mut text, '.');
                        push_char(&mut text, d2);
                        proof {
                            lemma_digit_filter_snoc(s, e1 + 1, e1 + 1);
                            assert(digit_filter(s, e1 + 1, e1 + 1) =~= Seq::<char>::empty());
                            assert(digit_filter(s, e1 + 1, e1 + 2) =~= seq![d2]);
                            assert(text@ =~= digit_filter(s, start, e1) + seq!['.'] + digit_filter(
                                s,
                                e1 + 1,
                                self.cursor(),
                            ));
                            assert(digits_end(s, e1 + 1) == digits_end(s, e1 + 2));
                        }
                        loop
                            invariant
                                self.wf(),
                                self.src() == s,
                                0 <= start < e1,
                                has_fraction(s, e1),
                                e1 + 2 <= self.cursor() <= s.len(),
                                digits_end(s, e1 + 1) == digits_end(s, self.cursor()),
                                text@ == digit_filter(s, start, e1) + seq!['.'] + digit_filter(
                                    s,
                                    e1 + 1,
                                    self.cursor(),
                                ),
                            ensures
                                self.wf(),
                                self.src() == s,
                                self.cursor() == digits_end(s, e1 + 1),
                                text@ == digit_filter(s, start, e1) + seq!['.'] + digit_filter(
                                    s,
                                    e1 + 1,
                                    self.cursor(),
                                ),
                            decreases s.len() - self.cursor(),
                        {
                            match self.peek() {
                                Some(nc) => {
                                    if is_digit(nc) || nc == '_' {
                                        proof {
                                            assert(digits_end(s, self.cursor()) == digits_end(
                                                s,
                                                self.cursor() + 1,
                                            ));
                                            lemma_digit_filter_snoc(s, e1 + 1, self.cursor());
                                            if nc != '_' {
                                                assert((digit_filter(s, start, e1) + seq!['.']
                                                    + digit_filter(
                                                    s,
                                                    e1 + 1,
                                                    self.cursor(),
                                                )).push(nc) =~= digit_filter(s, start, e1)
                                                    + seq!['.'] + digit_filter(
                                                    s,
                                                    e1 + 1,
                                                    self.cursor(),
                                                ).push(nc));
                                            }
                                        }
                                        if is_digit(nc) {
                                            push_char(&mut text, nc);
                                        }
                                        self.advance();
                                    } else {
                                        proof {
                                            assert(digits_end(s, self.cursor()) == self.cursor());
                                        }
                                        break ;
                                    }
                                },
                                None => {
                                    proof {
                                        assert(digits_end(s, self.cursor()) == self.cursor());
                                    }
                                    break ;
                                },
                            }
                        }
                        return Ok(TokenKind::FloatLit(text));
                    }
                }
            }
        }
        match val {
            Some(v) => Ok(TokenKind::IntegerLit(v)),
            None => Err(LexErrorKind::MalformedNumber),
        }
    }

    /// Scans a string literal body; the opening quote was just consumed.
    /// Recognized escapes are `\n \t \r \" \\`; any other escaped character
    /// passes through as `\` followed by that character. A missing closing
    /// quote is a fatal error.
    fn parse_string(&mut self) -> (r: Result<TokenKind, LexErrorKind>)
        requires
            old(self).wf(),
        ensures
            final(self).wf(),
            final(self).src() == old(self).src(),
            (match scan_str(old(self).src(), old(self).cursor()) {
                Some(p) => {
                    &&& final(self).cursor() == p.1
                    &&& r matches Ok(k) && (k matches TokenKind::StringLit(x) && x@ == p.0)
                },
                None => {
                    &&& final(self).cursor() == old(self).src().len()
                    &&& r == Result::<TokenKind, LexErrorKind>::Err(
                        LexErrorKind::UnterminatedString,
                    )
                },
            }),
    {
        let ghost s = old(self).src();
        let ghost i0 = old(self).cursor();
        let mut out = String::new();
        let mut terminated: bool = false;
        proof {
            match scan_str(s, i0) {
                Some(p) => {
                    assert(out@ + p.0 =~= p.0);
                },
                None => {},
            }
        }
        loop
            invariant_except_break
                (match scan_str(s, self.cursor()) {
                    Some(p) => scan_str(s, i0) == Some((out@ + p.0, p.1)),
                    None => scan_str(s, i0) is None,
                }),
            invariant
                self.wf(),
                self.src() == s,
                s == old(self).src(),
                0 <= i0 <= self.cursor() <= s.len(),
                i0 == old(self).cursor(),
            ensures
                self.wf(),
                self.src() == s,
                (match scan_str(s, i0) {
                    Some(p) => self.cursor() == p.1 && out@ == p.0,
                    None => self.cursor() == s.len(),
                }),
                (scan_str(s, i0) is Some) == terminated,
            decreases s.len() - self.cursor(),
        {
            let ghost cur = self.cursor();
            match self.advance() {
                None => {
                    proof {
                        assert(scan_str(s, cur) is None);
                    }
                    terminated = false;
                    break ;
                },
                Some(ch) => {
                    if ch == '"' {
                        proof {
                            assert(scan_str(s, cur) == Some((Seq::<char>::empty(), cur + 1)));
                            assert(out@ + Seq::<char>::empty() =~= out@);
                        }
                        terminated = true;
                        break ;
                    } else if ch == '\\' {
                        let ghost out0 = out@;
                        match self.advance() {
                            None => {
                                proof {
                                    assert(scan_str(s, cur) is None);
                                }
                                terminated = false;
                                break ;
                            },
                            Some(esc) => {
                                if esc == 'n' {
                                    push_char(&mut out, '\n');
                                } else if esc == 't' {
                                    push_char(&mut out, '\t');
                                } else if esc == 'r' {
                                    push_char(&mut out, '\r');
                                } else if esc == '"' {
                                    push_char(&mut out, '"');
                                } else if esc == '\\' {
                                    push_char(&mut out, '\\');
                                } else {
                                    push_char(&mut out, '\\');
                                    push_char(&mut out, esc);
                                }
                                proof {
                                    assert(out@ =~= out0 + decode_escape(esc));
                                    match scan_str(s, self.cursor()) {
                                        Some(p) => {
                                            assert(scan_str(s, cur) == Some(
                                                (decode_escape(esc) + p.0, p.1),
                                            ));
                                            assert(out0 + (decode_escape(esc) + p.0) =~= (out0
                                                + decode_escape(esc)) + p.0);
                                        },
                                        None => {
                                            assert(scan_str(s, cur) is None);
                                        },
                                    }
                                }
                            },
                        }
                    } else {
                        let ghost out0 = out@;
                        push_char(&mut out, ch);
                        proof {
                            assert(out@ =~= out0 + seq![ch]);
                            match scan_str(s, self.cursor()) {
                                Some(p) => {
                                    assert(scan_str(s, cur) == Some((seq![ch] + p.0, p.1)));
                                    assert(out0 + (seq![ch] + p.0) =~= (out0 + seq![ch]) + p.0);
                                },
                                None => {
                                    assert(scan_str(s, cur) is None);
                                },
                            }
                        }
                    }
                },
            }
        }
        if terminated {
            Ok(TokenKind::StringLit(out))
        } else {
            Err(LexErrorKind::UnterminatedString)
        }
    }

    /// Maps an operator or punctuation character, with one character of
    /// lookahead for the multi-character operators, to its token; consumes
    /// the second character exactly when a two-character operator is chosen.
    fn op_lookup(&mut self, c: char) -> (r: Option<TokenKind>)
        requires
            old(self).wf(),
        ensures
            final(self).wf(),
            final(self).src() == old(self).src(),
            ({
                let next = if old(self).cursor() < old(self).src().len() {
                    Some(old(self).src()[old(self).cursor()])
                } else {
                    None::<char>
                };
                match op_token(c, next) {
                    Some(kn) => r == Some(kn.0) && final(self).cursor() == old(self).cursor()
                        + kn.1 - 1,
                    None => r is None && final(self).cursor() == old(self).cursor(),
                }
            }),
    {
        if c == '(' {
            Some(TokenKind::LParen)
        } else if c == ')' {
            Some(TokenKind::RParen)
        } else if c == '{' {
            Some(TokenKind::LBrace)
        } else if c == '}' {
            Some(TokenKind::RBrace)
        } else if c == '[' {
            Some(TokenKind::LBracket)
        } else if c == ']' {
            Some(TokenKind::RBracket)
        } else if c == ',' {
            Some(TokenKind::Comma)
        } else if c == '.' {
            Some(TokenKind::Dot)
        } else if c == ':' {
            Some(TokenKind::Colon)
        } else if c == ';' {
            Some(TokenKind::Semicolon)
        } else if c == '?' {
            Some(TokenKind::Question)
        } else if c == '%' {
            Some(TokenKind::Percent)
        } else if c == '@' {
            Some(TokenKind::At)
        } else if c == '^' {
            Some(TokenKind::BitXor)
        } else if c == '~' {
            Some(TokenKind::BitNot)
        } else if c == '+' {
            if let Some(n) = self.peek() {
                if n == '=' {
                    self.advance();
                    return Some(TokenKind::PlusAssign);
                }
            }
            Some(TokenKind::Plus)
        } else if c == '-' {
            if let Some(n) = self.peek() {
                if n == '=' {
                    self.advance();
                    return Some(TokenKind::MinusAssign);
                }
                if n == '>' {
                    self.advance();
                    return Some(TokenKind::Arrow);
                }
            }
            Some(TokenKind::Minus)
        } else if c == '*' {
            if let Some(n) = self.peek() {
                if n == '=' {
                    self.advance();
                    return Some(TokenKind::StarAssign);
                }
            }
            Some(TokenKind::Star)
        } else if c == '/' {
            if let Some(n) = self.peek() {
                if n == '=' {
                    self.advance();
                    return Some(TokenKind::SlashAssign);
                }
            }
            Some(TokenKind::Slash)
        } else if c == '!' {
            if let Some(n) = self.peek() {
                if n == '=' {
                    self.advance();
                    return Some(TokenKind::NotEq);
                }
            }
            Some(TokenKind::Bang)
        } else if c == '|' {
            if let Some(n) = self.peek() {
                if n == '|' {
                    self.advance();
                    return Some(TokenKind::OrOr);
                }
                if n == '>' {
                    self.advance();
                    return Some(TokenKind::PipeGreater);
                }
            }
            Some(TokenKind::BitOr)
        } else if c == '&' {
            if let Some(n) = self.peek() {
                if n == '&' {
                    self.advance();
                    return Some(TokenKind::AndAnd);
                }
            }
            Some(TokenKind::Ampersand)
        } else if c == '>' {
            if let Some(n) = self.peek() {
                if n == '=' {
                    self.advance();
                    return Some(TokenKind::GtEq);
                }
                if n == '>' {
                    self.advance();
                    return Some(TokenKind::Shr);
                }
            }
            Some(TokenKind::Gt)
        } else if c == '<' {
            if let Some(n) = self.peek() {
                if n == '=' {
                    self.advance();
                    return Some(TokenKind::LtEq);
                }
                if n == '<' {
                    self.advance();
                    return Some(TokenKind::Shl);
                }
            }
            Some(TokenKind::Lt)
        } else if c == '=' {
            if let Some(n) = self.peek() {
                if n == '=' {
                    self.advance();
                    return Some(TokenKind::EqEq);
                }
                if n == '>' {
                    self.advance();
                    return Some(TokenKind::FatArrow);
                }
            }
            Some(TokenKind::Assign)
        } else {
            None
        }
    }

    /// Produces the next token: skips leading whitespace, classifies by the
    /// first character, and returns the token with its exact byte span, or
    /// the lexical error [`lex_ensures`] prescribes for this input.
    pub fn next_token(&mut self) -> (r: Result<Token, LexError>)
        requires
            old(self).wf(),
        ensures
            final(self).wf(),
            final(self).src() == old(self).src(),
            lex_ensures(old(self).src(), old(self).cursor(), r, final(self).cursor()),
    {
        self.skip_whitespace();
        let start = self.pos;
        let c = match self.advance() {
            Some(c) => c,
            None => {
                return Ok(Token { kind: TokenKind::Eof, span: Span::new(start, start) });
            },
        };
        if is_digit(c) {
            match self.parse_number(c) {
                Ok(k) => Ok(Token { kind: k, span: Span::new(start, self.pos) }),
                Err(e) => Err(LexError { kind: e, pos: start }),
            }
        } else if is_ident_start(c) {
            let k = self.parse_ident(c);
            Ok(Token { kind: k, span: Span::new(start, self.pos) })
        } else if c == '"' {
            match self.parse_string() {
                Ok(k) => Ok(Token { kind: k, span: Span::new(start, self.pos) }),
                Err(e) => Err(LexError { kind: e, pos: start }),
            }
        } else if c == '\'' {
            match self.advance() {
                Some(ch) => match self.consume('\'') {
                    Ok(_) => Ok(
                        Token { kind: TokenKind::Char(ch), span: Span::new(start, self.pos) },
                    ),
                    Err(e) => Err(LexError { kind: e, pos: start }),
                },
                None => Err(LexError { kind: LexErrorKind::UnterminatedChar, pos: start }),
            }
        } else {
            match self.op_lookup(c) {
                Some(k) => Ok(Token { kind: k, span: Span::new(start, self.pos) }),
                None => Err(LexError { kind: LexErrorKind::UnknownChar(c), pos: start }),
            }
        }
    }
}

/// One step of base-10 accumulation: `val * 10` plus the digit `c`, with
/// `None` standing for "the digits seen so far exceed `i64::MAX`".
fn mul_add_digit(val: Option<i64>, c: char) -> (r: Option<i64>)
    requires
        (val matches Some(v) ==> v >= 0),
        is_digit_char(c),
    ensures
        (match val {
            Some(v) => (match r {
                Some(w) => w as int == v as int * 10 + digit_val(c) && w >= 0,
                None => v as int * 10 + digit_val(c) > i64::MAX,
            }),
            None => r is None,
        }),
{
    match val {
        Some(v) => {
            let d = ((c as u32) - 48) as i64;
            match v.checked_mul(10) {
                Some(m) => m.checked_add(d),
                None => None,
            }
        },
        None => None,
    }
}

/// Classifies identifier text against the keyword table, as
/// [`keyword_token`] states.
fn keyword_lookup(ident: String) -> (k: TokenKind)
    ensures
        (match keyword_token(ident@) {
            Some(kw) => k == kw,
            None => k matches TokenKind::Ident(x) && x@ == ident@,
        }),
{
    let s = ident.as_str();
    if crate::common::str_eq(s, "fn") {
        TokenKind::Fn
    } else if crate::common::str_eq(s, "struct") {
        TokenKind::Struct
    } else if crate::common::str_eq(s, "enum") {
        TokenKind::Enum
    } else if crate::common::str_eq(s, "union") {
        TokenKind::Union
    } else if crate::common::str_eq(s, "impl") {
        TokenKind::Impl
    } else if crate::common::str_eq(s, "const") {
        TokenKind::Const
    } else if crate::common::str_eq(s, "extern") {
        TokenKind::Extern
    } else if crate::common::str_eq(s, "val") {
        TokenKind::Val
    } else if crate::common::str_eq(s, "var") {
        TokenKind::Var
    } else if crate::common::str_eq(s, "defer") {
        TokenKind::Defer
    } else if crate::common::str_eq(s, "while") {
        TokenKind::While
    } else if crate::common::str_eq(s, "for") {
        TokenKind::For
    } else if crate::common::str_eq(s, "in") {
        TokenKind::In
    } else if crate::common::str_eq(s, "loop") {
        TokenKind::Loop
    } else if crate::common::str_eq(s, "if") {
        TokenKind::If
    } else if crate::common::str_eq(s, "else") {
        TokenKind::Else
    } else if crate::common::str_eq(s, "match") {
        TokenKind::Match
    } else if crate::common::str_eq(s, "break") {
        TokenKind::Break
    } else if crate::common::str_eq(s, "return") {
        TokenKind::Return
    } else if crate::common::str_eq(s, "void") {
        TokenKind::Void
    } else if crate::common::str_eq(s, "undefined") {
        TokenKind::Undefined
    } else if crate::common::str_eq(s, "true") {
        TokenKind::BoolLit(true)
    } else if crate::common::str_eq(s, "false") {
        TokenKind::BoolLit(false)
    } else if crate::common::str_eq(s, "null") {
        TokenKind::Null
    } else {
        TokenKind::Ident(ident)
    }
}

} // verus!
