use vstd::prelude::*;

use crate::source::{span_text, Source, Span, Spanned};
use crate::text::{
    debug_str, decimal_digits, push_str, str_debug, u64_to_string,
    chars_equal, is_alphabetic, is_alphanumeric, is_ascii_digit, is_digit_spec, is_numeric,
    is_whitespace, string_from_chars, unicode_alphabetic, unicode_numeric, unicode_whitespace,
};

verus! {

#[derive(Debug, Clone, Copy, PartialEq, Eq, Structural)]
pub enum Error {
    Unexpected(Span),
}

/// Lexical tokens. Number literals are integers only: the lexer has no
/// floating-point form.
#[derive(Debug, Clone, PartialEq)]
pub enum Token {
    // only for highlighting
    Comment,
    // Keywords
    Break,
    For,
    Do,
    End,
    If,
    Then,
    Else,
    ElseIf,
    Function,
    Local,
    Return,
    Struct,
    // Literals
    Nil,
    True,
    False,
    Integer(u64),
    String(String),
    Identifier(String),
    // Symbols
    Dot,
    Comma,
    Colon,
    DoubleColon,
    Semicolon,
    // Misc operators
    In,
    Assign,
    Concat,
    // Logic operators
    And,
    Or,
    Not,
    // Arithmetic operators
    Add,
    Minus,
    Times,
    Divide,
    Modulo,
    // Bitwise operators
    BitAnd,
    BitOr,
    BitXor,
    LShift,
    RShift,
    // Comparison operators
    EQ,
    NE,
    LT,
    GT,
    LE,
    GE,
    // Delimiters
    LParen,
    RParen,
    LBracket,
    RBracket,
    LBrace,
    RBrace,
    // End of input
    Eof,
}

/// The variant of a token, as a number: tokens of the same variant share it
/// whatever their payload.
pub open spec fn token_kind(t: Token) -> int {
    match t {
        Token::Comment => 0,
        Token::Break => 1,
        Token::For => 2,
        Token::Do => 3,
        Token::End => 4,
        Token::If => 5,
        Token::Then => 6,
        Token::Else => 7,
        Token::ElseIf => 8,
        Token::Function => 9,
        Token::Local => 10,
        Token::Return => 11,
        Token::Struct => 12,
        Token::Nil => 13,
        Token::True => 14,
        Token::False => 15,
        Token::Integer(_) => 16,
        Token::String(_) => 17,
        Token::Identifier(_) => 18,
        Token::Dot => 19,
        Token::Comma => 20,
        Token::Colon => 21,
        Token::DoubleColon => 22,
        Token::Semicolon => 23,
        Token::In => 24,
        Token::Assign => 25,
        Token::Concat => 26,
        Token::And => 27,
        Token::Or => 28,
        Token::Not => 29,
        Token::Add => 30,
        Token::Minus => 31,
        Token::Times => 32,
        Token::Divide => 33,
        Token::Modulo => 34,
        Token::BitAnd => 35,
        Token::BitOr => 36,
        Token::BitXor => 37,
        Token::LShift => 38,
        Token::RShift => 39,
        Token::EQ => 40,
        Token::NE => 41,
        Token::LT => 42,
        Token::GT => 43,
        Token::LE => 44,
        Token::GE => 45,
        Token::LParen => 46,
        Token::RParen => 47,
        Token::LBracket => 48,
        Token::RBracket => 49,
        Token::LBrace => 50,
        Token::RBrace => 51,
        Token::Eof => 52,
    }
}

impl Token {
    fn kind(&self) -> (r: u8)
        ensures
            r == token_kind(*self),
    {
        match self {
            Token::Comment => 0,
            Token::Break => 1,
            Token::For => 2,
            Token::Do => 3,
            Token::End => 4,
            Token::If => 5,
            Token::Then => 6,
            Token::Else => 7,
            Token::ElseIf => 8,
            Token::Function => 9,
            Token::Local => 10,
            Token::Return => 11,
            Token::Struct => 12,
            Token::Nil => 13,
            Token::True => 14,
            Token::False => 15,
            Token::Integer(_) => 16,
            Token::String(_) => 17,
            Token::Identifier(_) => 18,
            Token::Dot => 19,
            Token::Comma => 20,
            Token::Colon => 21,
            Token::DoubleColon => 22,
            Token::Semicolon => 23,
            Token::In => 24,
            Token::Assign => 25,
            Token::Concat => 26,
            Token::And => 27,
            Token::Or => 28,
            Token::Not => 29,
            Token::Add => 30,
            Token::Minus => 31,
            Token::Times => 32,
            Token::Divide => 33,
            Token::Modulo => 34,
            Token::BitAnd => 35,
            Token::BitOr => 36,
            Token::BitXor => 37,
            Token::LShift => 38,
            Token::RShift => 39,
            Token::EQ => 40,
            Token::NE => 41,
            Token::LT => 42,
            Token::GT => 43,
            Token::LE => 44,
            Token::GE => 45,
            Token::LParen => 46,
            Token::RParen => 47,
            Token::LBracket => 48,
            Token::RBracket => 49,
            Token::LBrace => 50,
            Token::RBrace => 51,
            Token::Eof => 52,
        }
    }

    /// Whether both tokens are of the same variant, whatever their payloads.
    pub fn same_kind_as(&self, other: &Token) -> (r: bool)
        ensures
            r == (token_kind(*self) == token_kind(*other)),
    {
        self.kind() == other.kind()
    }

    /// A copy of the token, payload included.
    pub fn duplicate(&self) -> (r: Token)
        ensures
            r == *self,
    {
        match self {
            Token::Integer(n) => Token::Integer(*n),
            Token::String(s) => Token::String(s.clone()),
            Token::Identifier(s) => Token::Identifier(s.clone()),
            Token::Comment => Token::Comment,
            Token::Break => Token::Break,
            Token::For => Token::For,
            Token::Do => Token::Do,
            Token::End => Token::End,
            Token::If => Token::If,
            Token::Then => Token::Then,
            Token::Else => Token::Else,
            Token::ElseIf => Token::ElseIf,
            Token::Function => Token::Function,
            Token::Local => Token::Local,
            Token::Return => Token::Return,
            Token::Struct => Token::Struct,
            Token::Nil => Token::Nil,
            Token::True => Token::True,
            Token::False => Token::False,
            Token::Dot => Token::Dot,
            Token::Comma => Token::Comma,
            Token::Colon => Token::Colon,
            Token::DoubleColon => Token::DoubleColon,
            Token::Semicolon => Token::Semicolon,
            Token::In => Token::In,
            Token::Assign => Token::Assign,
            Token::Concat => Token::Concat,
            Token::And => Token::And,
            Token::Or => Token::Or,
            Token::Not => Token::Not,
            Token::Add => Token::Add,
            Token::Minus => Token::Minus,
            Token::Times => Token::Times,
            Token::Divide => Token::Divide,
            Token::Modulo => Token::Modulo,
            Token::BitAnd => Token::BitAnd,
            Token::BitOr => Token::BitOr,
            Token::BitXor => Token::BitXor,
            Token::LShift => Token::LShift,
            Token::RShift => Token::RShift,
            Token::EQ => Token::EQ,
            Token::NE => Token::NE,
            Token::LT => Token::LT,
            Token::GT => Token::GT,
            Token::LE => Token::LE,
            Token::GE => Token::GE,
            Token::LParen => Token::LParen,
            Token::RParen => Token::RParen,
            Token::LBracket => Token::LBracket,
            Token::RBracket => Token::RBracket,
            Token::LBrace => Token::LBrace,
            Token::RBrace => Token::RBrace,
            Token::Eof => Token::Eof,
        }
    }
}

impl Spanned<Token> {
    /// A copy of the spanned token.
    pub fn duplicate(&self) -> (r: Spanned<Token>)
        ensures
            r == *self,
    {
        Spanned { data: self.data.duplicate(), span: self.span }
    }
}

// ---------------------------------------------------------------------------
// Debug text of tokens
// ---------------------------------------------------------------------------

/// The text that `{:?}` gives for a token: the variant's name, with its
/// payload in brackets.
pub open spec fn token_debug(t: Token) -> Seq<char> {
    match t {
        Token::Comment => "Comment"@,
        Token::Break => "Break"@,
        Token::For => "For"@,
        Token::Do => "Do"@,
        Token::End => "End"@,
        Token::If => "If"@,
        Token::Then => "Then"@,
        Token::Else => "Else"@,
        Token::ElseIf => "ElseIf"@,
        Token::Function => "Function"@,
        Token::Local => "Local"@,
        Token::Return => "Return"@,
        Token::Struct => "Struct"@,
        Token::Nil => "Nil"@,
        Token::True => "True"@,
        Token::False => "False"@,
        Token::Integer(n) => "Integer("@ + decimal_digits(n as nat) + ")"@,
        Token::String(x) => "String("@ + str_debug(x@) + ")"@,
        Token::Identifier(x) => "Identifier("@ + str_debug(x@) + ")"@,
        Token::Dot => "Dot"@,
        Token::Comma => "Comma"@,
        Token::Colon => "Colon"@,
        Token::DoubleColon => "DoubleColon"@,
        Token::Semicolon => "Semicolon"@,
        Token::In => "In"@,
        Token::Assign => "Assign"@,
        Token::Concat => "Concat"@,
        Token::And => "And"@,
        Token::Or => "Or"@,
        Token::Not => "Not"@,
        Token::Add => "Add"@,
        Token::Minus => "Minus"@,
        Token::Times => "Times"@,
        Token::Divide => "Divide"@,
        Token::Modulo => "Modulo"@,
        Token::BitAnd => "BitAnd"@,
        Token::BitOr => "BitOr"@,
        Token::BitXor => "BitXor"@,
        Token::LShift => "LShift"@,
        Token::RShift => "RShift"@,
        Token::EQ => "EQ"@,
        Token::NE => "NE"@,
        Token::LT => "LT"@,
        Token::GT => "GT"@,
        Token::LE => "LE"@,
        Token::GE => "GE"@,
        Token::LParen => "LParen"@,
        Token::RParen => "RParen"@,
        Token::LBracket => "LBracket"@,
        Token::RBracket => "RBracket"@,
        Token::LBrace => "LBrace"@,
        Token::RBrace => "RBrace"@,
        Token::Eof => "Eof"@,
    }
}

fn wrapped(head: &str, inner: &str) -> (r: String)
    ensures
        r@ == head@ + inner@ + ")"@,
{
    let mut s = head.to_owned();
    push_str(&mut s, inner);
    push_str(&mut s, ")");
    s
}

/// The text that `{:?}` gives for a token.
pub fn token_debug_text(t: &Token) -> (r: String)
    ensures
        r@ == token_debug(*t),
{
    match t {
        Token::Integer(n) => wrapped("Integer(", u64_to_string(*n).as_str()),
        Token::String(x) => wrapped("String(", debug_str(x.as_str()).as_str()),
        Token::Identifier(x) => wrapped("Identifier(", debug_str(x.as_str()).as_str()),
        Token::Comment => "Comment".to_owned(),
        Token::Break => "Break".to_owned(),
        Token::For => "For".to_owned(),
        Token::Do => "Do".to_owned(),
        Token::End => "End".to_owned(),
        Token::If => "If".to_owned(),
        Token::Then => "Then".to_owned(),
        Token::Else => "Else".to_owned(),
        Token::ElseIf => "ElseIf".to_owned(),
        Token::Function => "Function".to_owned(),
        Token::Local => "Local".to_owned(),
        Token::Return => "Return".to_owned(),
        Token::Struct => "Struct".to_owned(),
        Token::Nil => "Nil".to_owned(),
        Token::True => "True".to_owned(),
        Token::False => "False".to_owned(),
        Token::Dot => "Dot".to_owned(),
        Token::Comma => "Comma".to_owned(),
        Token::Colon => "Colon".to_owned(),
        Token::DoubleColon => "DoubleColon".to_owned(),
        Token::Semicolon => "Semicolon".to_owned(),
        Token::In => "In".to_owned(),
        Token::Assign => "Assign".to_owned(),
        Token::Concat => "Concat".to_owned(),
        Token::And => "And".to_owned(),
        Token::Or => "Or".to_owned(),
        Token::Not => "Not".to_owned(),
        Token::Add => "Add".to_owned(),
        Token::Minus => "Minus".to_owned(),
        Token::Times => "Times".to_owned(),
        Token::Divide => "Divide".to_owned(),
        Token::Modulo => "Modulo".to_owned(),
        Token::BitAnd => "BitAnd".to_owned(),
        Token::BitOr => "BitOr".to_owned(),
        Token::BitXor => "BitXor".to_owned(),
        Token::LShift => "LShift".to_owned(),
        Token::RShift => "RShift".to_owned(),
        Token::EQ => "EQ".to_owned(),
        Token::NE => "NE".to_owned(),
        Token::LT => "LT".to_owned(),
        Token::GT => "GT".to_owned(),
        Token::LE => "LE".to_owned(),
        Token::GE => "GE".to_owned(),
        Token::LParen => "LParen".to_owned(),
        Token::RParen => "RParen".to_owned(),
        Token::LBracket => "LBracket".to_owned(),
        Token::RBracket => "RBracket".to_owned(),
        Token::LBrace => "LBrace".to_owned(),
        Token::RBrace => "RBrace".to_owned(),
        Token::Eof => "Eof".to_owned(),
    }
}

/// The part of `s` that a span covers, kept within the text.
pub open spec fn spanned_text(s: Seq<char>, span: Span) -> Seq<char> {
    let a = if span.start <= s.len() { span.start as int } else { s.len() as int };
    let b = if span.end <= a { a } else if span.end >= s.len() { s.len() as int } else { span.end as int };
    s.subrange(a, b)
}

/// The report of a lexing error.
pub open spec fn lex_error_text(s: Seq<char>, name: Seq<char>, e: Error) -> Seq<char> {
    match e {
        Error::Unexpected(span) => "error: Unexpected character `"@ + spanned_text(s, span) + "`\n"@
            + span_text(s, name, span),
    }
}

impl Error {
    /// Reports the error: the character met, and where it stands.
    pub fn pretty_print(&self, source: &Source) -> (r: String)
        requires
            source@.len() < usize::MAX,
        ensures
            r@ == lex_error_text(source@, source.name@, *self),
    {
        match self {
            Error::Unexpected(span) => {
                let len = source.len();
                let a = if span.start <= len { span.start } else { len };
                let b = if span.end <= a { a } else if span.end >= len { len } else { span.end };
                let mut out = "error: Unexpected character `".to_owned();
                push_str(&mut out, source.substring(a, b).as_str());
                push_str(&mut out, "`\n");
                push_str(&mut out, source.print_span(*span).as_str());
                out
            },
        }
    }
}

// ---------------------------------------------------------------------------
// What the lexer reads, stated over the characters of the source
// ---------------------------------------------------------------------------

/// The character at `i`, or `None` past the end.
pub open spec fn char_at(s: Seq<char>, i: int) -> Option<char> {
    if 0 <= i < s.len() {
        Some(s[i])
    } else {
        None
    }
}

/// First offset at or after `i` that does not hold whitespace.
pub open spec fn ws_end(s: Seq<char>, i: int) -> int
    decreases s.len() - i,
{
    if i >= s.len() {
        i
    } else if unicode_whitespace(s[i]) {
        ws_end(s, i + 1)
    } else {
        i
    }
}

/// Whether `c` may continue an identifier.
pub open spec fn ident_char(c: char) -> bool {
    unicode_alphabetic(c) || unicode_numeric(c) || c == '_'
}

/// First offset at or after `i` that does not continue an identifier.
pub open spec fn ident_end(s: Seq<char>, i: int) -> int
    decreases s.len() - i,
{
    if i >= s.len() {
        i
    } else if ident_char(s[i]) {
        ident_end(s, i + 1)
    } else {
        i
    }
}

/// First offset at or after `i` that does not hold an ASCII digit.
pub open spec fn digits_end(s: Seq<char>, i: int) -> int
    decreases s.len() - i,
{
    if i >= s.len() {
        i
    } else if is_digit_spec(s[i]) {
        digits_end(s, i + 1)
    } else {
        i
    }
}

/// First offset at or after `i` that holds `c`, or the end of the text.
pub open spec fn find_char(s: Seq<char>, i: int, c: char) -> int
    decreases s.len() - i,
{
    if i >= s.len() {
        if i > s.len() { i } else { s.len() as int }
    } else if s[i] == c {
        i
    } else {
        find_char(s, i + 1, c)
    }
}

/// Value of the decimal digit `c`.
pub open spec fn digit_value(c: char) -> u64 {
    (c as u32 - '0' as u32) as u64
}

/// Value of the decimal digits `s[i..j]`, modulo 2^64.
pub open spec fn digits_value(s: Seq<char>, i: int, j: int) -> u64
    decreases j - i,
{
    if j <= i {
        0
    } else {
        digits_value(s, i, j - 1).wrapping_mul(10).wrapping_add(digit_value(s[j - 1]))
    }
}

/// The keyword that a word spells, if any.
pub open spec fn keyword(w: Seq<char>) -> Option<Token> {
    if w == seq!['b', 'r', 'e', 'a', 'k'] {
        Some(Token::Break)
    } else if w == seq!['f', 'o', 'r'] {
        Some(Token::For)
    } else if w == seq!['d', 'o'] {
        Some(Token::Do)
    } else if w == seq!['e', 'n', 'd'] {
        Some(Token::End)
    } else if w == seq!['i', 'f'] {
        Some(Token::If)
    } else if w == seq!['t', 'h', 'e', 'n'] {
        Some(Token::Then)
    } else if w == seq!['e', 'l', 's', 'e'] {
        Some(Token::Else)
    } else if w == seq!['e', 'l', 's', 'e', 'i', 'f'] {
        Some(Token::ElseIf)
    } else if w == seq!['f', 'u', 'n', 'c', 't', 'i', 'o', 'n'] {
        Some(Token::Function)
    } else if w == seq!['l', 'o', 'c', 'a', 'l'] {
        Some(Token::Local)
    } else if w == seq!['r', 'e', 't', 'u', 'r', 'n'] {
        Some(Token::Return)
    } else if w == seq!['s', 't', 'r', 'u', 'c', 't'] {
        Some(Token::Struct)
    } else if w == seq!['i', 'n'] {
        Some(Token::In)
    } else if w == seq!['n', 'i', 'l'] {
        Some(Token::Nil)
    } else if w == seq!['t', 'r', 'u', 'e'] {
        Some(Token::True)
    } else if w == seq!['f', 'a', 'l', 's', 'e'] {
        Some(Token::False)
    } else if w == seq!['n', 'o', 't'] {
        Some(Token::Not)
    } else if w == seq!['a', 'n', 'd'] {
        Some(Token::And)
    } else if w == seq!['o', 'r'] {
        Some(Token::Or)
    } else {
        None
    }
}

/// The token that a word reads as: its keyword, or an identifier that holds it.
pub open spec fn word_token(w: Seq<char>, t: Token) -> bool {
    match keyword(w) {
        Some(k) => t == k,
        None => t matches Token::Identifier(x) && x@ == w,
    }
}

/// Punctuation read at `i`: the token and how many characters it takes.
pub open spec fn punctuation(s: Seq<char>, i: int) -> Option<(Token, int)> {
    let c = s[i];
    let next = char_at(s, i + 1);
    if c == '/' {
        if next == Some('/') {
            None
        } else {
            Some((Token::Divide, 1))
        }
    } else if c == '=' {
        if next == Some('=') { Some((Token::EQ, 2)) } else { Some((Token::Assign, 1)) }
    } else if c == ':' {
        if next == Some(':') { Some((Token::DoubleColon, 2)) } else { Some((Token::Colon, 1)) }
    } else if c == '.' {
        if next == Some('.') { Some((Token::Concat, 2)) } else { Some((Token::Dot, 1)) }
    } else if c == '<' {
        if next == Some('=') { Some((Token::LE, 2)) } else { Some((Token::LT, 1)) }
    } else if c == '>' {
        if next == Some('=') { Some((Token::GE, 2)) } else { Some((Token::GT, 1)) }
    } else if c == '!' && next == Some('=') {
        Some((Token::NE, 2))
    } else if c == '+' {
        Some((Token::Add, 1))
    } else if c == '-' {
        Some((Token::Minus, 1))
    } else if c == '%' {
        Some((Token::Modulo, 1))
    } else if c == '*' {
        Some((Token::Times, 1))
    } else if c == ',' {
        Some((Token::Comma, 1))
    } else if c == ';' {
        Some((Token::Semicolon, 1))
    } else if c == '(' {
        Some((Token::LParen, 1))
    } else if c == ')' {
        Some((Token::RParen, 1))
    } else if c == '[' {
        Some((Token::LBracket, 1))
    } else if c == ']' {
        Some((Token::RBracket, 1))
    } else if c == '{' {
        Some((Token::LBrace, 1))
    } else if c == '}' {
        Some((Token::RBrace, 1))
    } else {
        None
    }
}

/// Where the lexer stands after reading one token from `pos`.
pub open spec fn next_pos(s: Seq<char>, pos: int) -> int {
    let start = ws_end(s, pos);
    if start >= s.len() {
        start
    } else {
        let c = s[start];
        if c == '"' {
            let q = find_char(s, start + 1, '"');
            if q < s.len() { q + 1 } else { s.len() as int }
        } else if c == '/' && char_at(s, start + 1) == Some('/') {
            find_char(s, start + 2, '\n')
        } else if punctuation(s, start) is Some {
            start + punctuation(s, start).unwrap().1
        } else if unicode_alphabetic(c) || c == '_' {
            ident_end(s, start)
        } else if unicode_numeric(c) {
            digits_end(s, start)
        } else {
            start
        }
    }
}

/// Whether reading one token from `pos` fails.
pub open spec fn step_fails(s: Seq<char>, pos: int) -> bool {
    let start = ws_end(s, pos);
    if start >= s.len() {
        false
    } else {
        let c = s[start];
        if c == '"' {
            find_char(s, start + 1, '"') >= s.len()
        } else if c == '/' && char_at(s, start + 1) == Some('/') {
            false
        } else if punctuation(s, start) is Some {
            false
        } else {
            !(unicode_alphabetic(c) || c == '_' || unicode_numeric(c))
        }
    }
}

/// Whether the token read from `pos` is the end of input.
pub open spec fn at_end(s: Seq<char>, pos: int) -> bool {
    ws_end(s, pos) >= s.len()
}

/// The outcome of reading one token from `pos`: the result and the position
/// that the lexer is left at.
pub open spec fn lexed(s: Seq<char>, pos: int, r: Result<Spanned<Token>, Error>, new_pos: int) -> bool {
    let start = ws_end(s, pos);
    if start >= s.len() {
        &&& r == Ok::<Spanned<Token>, Error>(
            Spanned { data: Token::Eof, span: Span { start: start as usize, end: start as usize } },
        )
        &&& new_pos == start
    } else if step_fails(s, pos) {
        let c = s[start];
        if c == '"' {
            &&& r == Err::<Spanned<Token>, Error>(
                Error::Unexpected(Span { start: start as usize, end: s.len() as usize }),
            )
            &&& new_pos == s.len()
        } else {
            &&& r == Err::<Spanned<Token>, Error>(
                Error::Unexpected(Span { start: start as usize, end: (start + 1) as usize }),
            )
            &&& new_pos == start
        }
    } else {
        let c = s[start];
        let end = next_pos(s, pos);
        &&& new_pos == end
        &&& r matches Ok(t)
        &&& t.span == Span { start: start as usize, end: end as usize }
        &&& if c == '"' {
            t.data matches Token::String(x) && x@ == s.subrange(start + 1, end - 1)
        } else if c == '/' && char_at(s, start + 1) == Some('/') {
            t.data == Token::Comment
        } else if punctuation(s, start) is Some {
            t.data == punctuation(s, start).unwrap().0
        } else if unicode_alphabetic(c) || c == '_' {
            word_token(s.subrange(start, end), t.data)
        } else {
            t.data == Token::Integer(digits_value(s, start, end))
        }
    }
}

/// Lexing from `pos` to the end: `Some((true, p))` when it reaches the end of
/// input in a token read from `p`, `Some((false, p))` when the token read from
/// `p` fails, `None` when a token read takes no character, so that the lexer
/// would read the same token forever.
pub open spec fn run_from(s: Seq<char>, pos: int) -> Option<(bool, int)>
    decreases s.len() - pos,
{
    if pos < 0 || pos > s.len() {
        None
    } else if step_fails(s, pos) {
        Some((false, pos))
    } else if at_end(s, pos) {
        Some((true, pos))
    } else if next_pos(s, pos) > pos {
        proof {
            lemma_next_pos(s, pos);
        }
        run_from(s, next_pos(s, pos))
    } else {
        None
    }
}

/// Where lexing from `pos` is caught: the offset of the first token read that
/// takes no character (meaningful when `run_from(s, pos)` is `None`).
pub open spec fn stall_pos(s: Seq<char>, pos: int) -> int
    decreases s.len() - pos,
{
    if pos < 0 || pos > s.len() {
        pos
    } else if step_fails(s, pos) || at_end(s, pos) {
        pos
    } else if next_pos(s, pos) > pos {
        proof {
            lemma_next_pos(s, pos);
        }
        stall_pos(s, next_pos(s, pos))
    } else {
        ws_end(s, pos)
    }
}

/// Where lexing is caught, it is caught on a character of the source.
pub proof fn lemma_stall_inside(s: Seq<char>, pos: int)
    requires
        0 <= pos <= s.len(),
        run_from(s, pos) is None,
    ensures
        pos <= stall_pos(s, pos) < s.len(),
    decreases s.len() - pos,
{
    lemma_next_pos(s, pos);
    if next_pos(s, pos) > pos {
        lemma_stall_inside(s, next_pos(s, pos));
    }
}

/// `toks` is what the lexer reads from `pos` up to and including the end of
/// input.
pub open spec fn tokenized(s: Seq<char>, pos: int, toks: Seq<Spanned<Token>>) -> bool
    decreases toks.len(),
{
    &&& toks.len() > 0
    &&& lexed(s, pos, Ok(toks[0]), toks[0].span.end as int)
    &&& if toks[0].data is Eof {
        toks.len() == 1
    } else {
        tokenized(s, toks[0].span.end as int, toks.drop_first())
    }
}


/// `toks` are the tokens, none of them the end of input, that the lexer reads
/// going from `pos` to `end`.
pub open spec fn tokens_lead(s: Seq<char>, pos: int, toks: Seq<Spanned<Token>>, end: int) -> bool
    decreases toks.len(),
{
    if toks.len() == 0 {
        pos == end
    } else {
        &&& lexed(s, pos, Ok(toks[0]), toks[0].span.end as int)
        &&& !(toks[0].data is Eof)
        &&& tokens_lead(s, toks[0].span.end as int, toks.drop_first(), end)
    }
}

proof fn lemma_tokens_lead_push(
    s: Seq<char>,
    pos: int,
    toks: Seq<Spanned<Token>>,
    mid: int,
    t: Spanned<Token>,
)
    requires
        tokens_lead(s, pos, toks, mid),
        lexed(s, mid, Ok(t), t.span.end as int),
        !(t.data is Eof),
    ensures
        tokens_lead(s, pos, toks.push(t), t.span.end as int),
    decreases toks.len(),
{
    if toks.len() > 0 {
        lemma_tokens_lead_push(s, toks[0].span.end as int, toks.drop_first(), mid, t);
        assert(toks.push(t).drop_first() =~= toks.drop_first().push(t));
        assert(toks.push(t)[0] == toks[0]);
    } else {
        assert(toks.push(t).drop_first() =~= Seq::<Spanned<Token>>::empty());
        assert(tokens_lead(s, t.span.end as int, Seq::<Spanned<Token>>::empty(), t.span.end as int));
        assert(toks.push(t)[0] == t);
    }
}

proof fn lemma_tokens_lead_concat(
    s: Seq<char>,
    pos: int,
    toks: Seq<Spanned<Token>>,
    mid: int,
    rest: Seq<Spanned<Token>>,
)
    requires
        tokens_lead(s, pos, toks, mid),
        tokenized(s, mid, rest),
    ensures
        tokenized(s, pos, toks + rest),
    decreases toks.len(),
{
    if toks.len() == 0 {
        assert(toks + rest =~= rest);
    } else {
        lemma_tokens_lead_concat(s, toks[0].span.end as int, toks.drop_first(), mid, rest);
        assert((toks + rest).drop_first() =~= toks.drop_first() + rest);
    }
}

/// Reading a token that is not the end of input leaves the outcome of lexing
/// to the end unchanged.
proof fn lemma_run_from_step(s: Seq<char>, pos: int, t: Spanned<Token>)
    requires
        0 <= pos <= s.len(),
        lexed(s, pos, Ok(t), t.span.end as int),
        !(t.data is Eof),
        run_from(s, pos) is Some,
    ensures
        t.span.end as int > pos,
        run_from(s, t.span.end as int) == run_from(s, pos),
{
}

/// Lexing stops: whether the characters from `pos` on are read to the end of
/// input or to an error without the lexer being caught on a token that takes
/// no character.
pub open spec fn lexing_stops(s: Seq<char>, pos: int) -> bool {
    run_from(s, pos) is Some
}


/// The tokens of a source end with the end-of-input token, and no other token
/// is one.
pub proof fn law_tokens_end_with_eof(s: Seq<char>, pos: int, toks: Seq<Spanned<Token>>)
    requires
        tokenized(s, pos, toks),
    ensures
        toks.len() > 0,
        toks.last().data is Eof,
        forall|i: int| 0 <= i < toks.len() - 1 ==> !(#[trigger] toks[i].data is Eof),
    decreases toks.len(),
{
    if !(toks[0].data is Eof) {
        law_tokens_end_with_eof(s, toks[0].span.end as int, toks.drop_first());
        assert forall|i: int| 0 <= i < toks.len() - 1 implies !(#[trigger] toks[i].data is Eof) by {
            if i > 0 {
                assert(toks[i] == toks.drop_first()[i - 1]);
            }
        }
    }
}

/// The token spans lie inside the source, in order and without overlap, each
/// starting where whitespace after the previous one ends.
pub proof fn law_token_spans_ordered(s: Seq<char>, pos: int, toks: Seq<Spanned<Token>>)
    requires
        0 <= pos <= s.len(),
        tokenized(s, pos, toks),
    ensures
        toks[0].span.start == ws_end(s, pos),
        forall|i: int|
            0 <= i < toks.len() ==> pos <= (#[trigger] toks[i]).span.start <= toks[i].span.end
                <= s.len(),
        forall|i: int|
            0 <= i < toks.len() - 1 ==> #[trigger] toks[i + 1].span.start == ws_end(
                s,
                toks[i].span.end as int,
            ),
    decreases toks.len(),
{
    lemma_next_pos(s, pos);
    if !(toks[0].data is Eof) {
        let rest = toks.drop_first();
        law_token_spans_ordered(s, toks[0].span.end as int, rest);
        assert forall|i: int| 0 <= i < toks.len() implies pos <= (#[trigger] toks[i]).span.start
            <= toks[i].span.end <= s.len() by {
            if i > 0 {
                assert(toks[i] == rest[i - 1]);
            }
        }
        assert forall|i: int| 0 <= i < toks.len() - 1 implies #[trigger] toks[i + 1].span.start
            == ws_end(s, toks[i].span.end as int) by {
            if i > 0 {
                assert(toks[i] == rest[i - 1]);
                assert(toks[i + 1] == rest[i]);
            }
        }
    }
}

/// An identifier token holds exactly the characters of the source that its
/// span covers.
pub proof fn law_identifier_text(s: Seq<char>, pos: int, toks: Seq<Spanned<Token>>)
    requires
        0 <= pos <= s.len(),
        tokenized(s, pos, toks),
    ensures
        forall|i: int|
            0 <= i < toks.len() ==> ((#[trigger] toks[i]).data matches Token::Identifier(x) ==> x@
                == s.subrange(toks[i].span.start as int, toks[i].span.end as int)),
    decreases toks.len(),
{
    lemma_next_pos(s, pos);
    if !(toks[0].data is Eof) {
        let rest = toks.drop_first();
        law_identifier_text(s, toks[0].span.end as int, rest);
        assert forall|i: int| 0 <= i < toks.len() implies ((#[trigger] toks[i]).data matches Token::Identifier(x) ==> x@
                == s.subrange(toks[i].span.start as int, toks[i].span.end as int)) by {
            if i > 0 {
                assert(toks[i] == rest[i - 1]);
            }
        }
    }
}

pub proof fn lemma_ws_end(s: Seq<char>, i: int)
    requires
        0 <= i <= s.len(),
    ensures
        i <= ws_end(s, i) <= s.len(),
    decreases s.len() - i,
{
    if i < s.len() && unicode_whitespace(s[i]) {
        lemma_ws_end(s, i + 1);
    }
}

pub proof fn lemma_ident_end(s: Seq<char>, i: int)
    requires
        0 <= i <= s.len(),
    ensures
        i <= ident_end(s, i) <= s.len(),
    decreases s.len() - i,
{
    if i < s.len() && ident_char(s[i]) {
        lemma_ident_end(s, i + 1);
    }
}

pub proof fn lemma_digits_end(s: Seq<char>, i: int)
    requires
        0 <= i <= s.len(),
    ensures
        i <= digits_end(s, i) <= s.len(),
        forall|k: int| i <= k < digits_end(s, i) ==> is_digit_spec(#[trigger] s[k]),
    decreases s.len() - i,
{
    if i < s.len() && is_digit_spec(s[i]) {
        lemma_digits_end(s, i + 1);
    }
}

pub proof fn lemma_find_char(s: Seq<char>, i: int, c: char)
    requires
        0 <= i,
    ensures
        i <= find_char(s, i, c),
        i <= s.len() ==> find_char(s, i, c) <= s.len(),
        find_char(s, i, c) < s.len() ==> s[find_char(s, i, c)] == c,
    decreases s.len() - i,
{
    if i < s.len() && s[i] != c {
        lemma_find_char(s, i + 1, c);
    }
}

/// The position after a token read never falls behind where reading began,
/// nor past the end.
pub proof fn lemma_next_pos(s: Seq<char>, pos: int)
    requires
        0 <= pos <= s.len(),
    ensures
        pos <= ws_end(s, pos) <= next_pos(s, pos) <= s.len(),
{
    lemma_ws_end(s, pos);
    let start = ws_end(s, pos);
    if start < s.len() {
        lemma_find_char(s, start + 1, '"');
        lemma_find_char(s, start + 2, '\n');
        lemma_ident_end(s, start);
        lemma_digits_end(s, start);
    }
}

pub struct Lexer<'a> {
    pub source: &'a Source,
    pub pos: usize,
}

impl<'a> Lexer<'a> {
    pub fn new(source: &'a Source) -> (r: Lexer<'a>)
        ensures
            r.source == source,
            r.pos == 0,
    {
        Lexer { source, pos: 0 }
    }

    pub fn span(&self, start: usize) -> (r: Span)
        ensures
            r == (Span { start, end: self.pos }),
    {
        Span { start, end: self.pos }
    }

    pub fn current(&self) -> (r: Option<char>)
        ensures
            r == char_at(self.source@, self.pos as int),
    {
        if self.pos < self.source.len() {
            Some(self.source.char_at(self.pos))
        } else {
            None
        }
    }

    pub fn peek(&self, offset: usize) -> (r: Option<char>)
        requires
            self.pos + offset <= usize::MAX,
        ensures
            r == char_at(self.source@, self.pos + offset),
    {
        let pos = self.pos + offset;
        if pos < self.source.len() {
            Some(self.source.char_at(pos))
        } else {
            None
        }
    }

    pub fn advance(&mut self)
        requires
            old(self).pos < usize::MAX,
        ensures
            final(self).pos == old(self).pos + 1,
            final(self).source == old(self).source,
    {
        self.pos += 1;
    }

    pub fn skip_whitespace(&mut self)
        requires
            old(self).pos <= old(self).source@.len(),
        ensures
            final(self).pos == ws_end(old(self).source@, old(self).pos as int),
            final(self).source == old(self).source,
    {
        let n = self.source.len();
        let ghost s = self.source@;
        let ghost p0 = self.pos as int;
        loop
            invariant_except_break
                n == s.len(),
                self.pos <= s.len(),
                s == self.source@,
                ws_end(s, self.pos as int) == ws_end(s, p0),
                self.source == old(self).source,
            ensures
                self.pos == ws_end(s, p0),
                self.source == old(self).source,
            decreases s.len() - self.pos,
        {
            let c = match self.current() {
                Some(c) => c,
                None => break,
            };
            if is_whitespace(c) {
                self.advance();
            } else {
                break;
            }
        }
    }

    pub fn read_identifier(&mut self) -> (r: Vec<char>)
        requires
            old(self).pos <= old(self).source@.len(),
        ensures
            final(self).pos == ident_end(old(self).source@, old(self).pos as int),
            r@ == old(self).source@.subrange(old(self).pos as int, final(self).pos as int),
            final(self).source == old(self).source,
    {
        let n = self.source.len();
        let ghost s = self.source@;
        let ghost p0 = self.pos as int;
        let mut result: Vec<char> = Vec::new();
        loop
            invariant_except_break
                n == s.len(),
                0 <= p0 <= self.pos <= s.len(),
                s == self.source@,
                ident_end(s, self.pos as int) == ident_end(s, p0),
                result@ == s.subrange(p0, self.pos as int),
                self.source == old(self).source,
            ensures
                self.pos == ident_end(s, p0),
                result@ == s.subrange(p0, self.pos as int),
                self.source == old(self).source,
            decreases s.len() - self.pos,
        {
            let c = match self.current() {
                Some(c) => c,
                None => break,
            };
            if is_alphanumeric(c) || c == '_' {
                result.push(c);
                self.advance();
                assert(result@ =~= s.subrange(p0, self.pos as int));
            } else {
                break;
            }
        }
        result
    }

    pub fn read_integer(&mut self) -> (r: u64)
        requires
            old(self).pos <= old(self).source@.len(),
        ensures
            final(self).pos == digits_end(old(self).source@, old(self).pos as int),
            r == digits_value(old(self).source@, old(self).pos as int, final(self).pos as int),
            final(self).source == old(self).source,
    {
        let n = self.source.len();
        let ghost s = self.source@;
        let ghost p0 = self.pos as int;
        let mut result: u64 = 0;
        loop
            invariant_except_break
                n == s.len(),
                0 <= p0 <= self.pos <= s.len(),
                s == self.source@,
                digits_end(s, self.pos as int) == digits_end(s, p0),
                result == digits_value(s, p0, self.pos as int),
                self.source == old(self).source,
            ensures
                self.pos == digits_end(s, p0),
                result == digits_value(s, p0, self.pos as int),
                self.source == old(self).source,
            decreases s.len() - self.pos,
        {
            let c = match self.current() {
                Some(c) => c,
                None => break,
            };
            if is_ascii_digit(c) {
                let d = (c as u32 - '0' as u32) as u64;
                result = result.wrapping_mul(10).wrapping_add(d);
                self.advance();
            } else {
                break;
            }
        }
        result
    }

    /// Reads the next token, skipping whitespace before it.
    #[verifier::rlimit(40)]
    pub fn next_token(&mut self) -> (r: Result<Spanned<Token>, Error>)
        requires
            old(self).pos <= old(self).source@.len(),
        ensures
            lexed(old(self).source@, old(self).pos as int, r, final(self).pos as int),
            final(self).source == old(self).source,
            final(self).pos <= final(self).source@.len(),
    {
        let ghost src = self.source@;
        let ghost p0 = self.pos as int;
        proof {
            lemma_next_pos(src, p0);
        }
        let n = self.source.len();
        self.skip_whitespace();
        let start = self.pos;
        let data = match self.current() {
            None => Token::Eof,
            Some('"') => {
                let mut chars: Vec<char> = Vec::new();
                loop
                    invariant_except_break
                        n == src.len(),
                        src == self.source@,
                        src == old(self).source@,
                        p0 == old(self).pos,
                        start == ws_end(src, p0),
                        start <= self.pos < src.len(),
                        src[start as int] == '"',
                        chars@ == src.subrange(start + 1, self.pos + 1),
                        find_char(src, self.pos + 1, '"') == find_char(src, start + 1, '"'),
                        self.source == old(self).source,
                    ensures
                        start < self.pos < src.len(),
                        self.pos == find_char(src, start + 1, '"'),
                        chars@ == src.subrange(start + 1, self.pos as int),
                        self.source == old(self).source,
                    decreases src.len() - self.pos,
                {
                    self.advance();
                    match self.current() {
                        Some('"') => break,
                        Some(c) => {
                            chars.push(c);
                            assert(chars@ =~= src.subrange(start + 1, self.pos + 1));
                        },
                        None => {
                            return Err(Error::Unexpected(Span { start, end: self.pos }));
                        },
                    }
                }
                self.advance();
                Token::String(string_from_chars(&chars))
            },
            Some('/') => {
                self.advance();
                if self.current() == Some('/') {
                    self.advance();
                    loop
                        invariant_except_break
                            n == src.len(),
                            src == self.source@,
                            start + 2 <= self.pos <= src.len(),
                            find_char(src, self.pos as int, '\n') == find_char(
                                src,
                                start + 2,
                                '\n',
                            ),
                            self.source == old(self).source,
                        ensures
                            self.pos == find_char(src, start + 2, '\n'),
                            self.source == old(self).source,
                        decreases src.len() - self.pos,
                    {
                        match self.current() {
                            Some(c) => {
                                if c == '\n' {
                                    break;
                                }
                                self.advance();
                            },
                            None => break,
                        }
                    }
                    Token::Comment
                } else {
                    Token::Divide
                }
            },
            Some('=') => {
                self.advance();
                if self.current() == Some('=') {
                    self.advance();
                    Token::EQ
                } else {
                    Token::Assign
                }
            },
            Some(':') => {
                self.advance();
                if self.current() == Some(':') {
                    self.advance();
                    Token::DoubleColon
                } else {
                    Token::Colon
                }
            },
            Some('.') => {
                self.advance();
                if self.current() == Some('.') {
                    self.advance();
                    Token::Concat
                } else {
                    Token::Dot
                }
            },
            Some('<') => {
                self.advance();
                if self.current() == Some('=') {
                    self.advance();
                    Token::LE
                } else {
                    Token::LT
                }
            },
            Some('>') => {
                self.advance();
                if self.current() == Some('=') {
                    self.advance();
                    Token::GE
                } else {
                    Token::GT
                }
            },
            // standard lua uses "~="
            Some('!') if self.peek(1) == Some('=') => {
                self.advance();
                self.advance();
                Token::NE
            },
            Some('+') => {
                self.advance();
                Token::Add
            },
            Some('-') => {
                self.advance();
                Token::Minus
            },
            Some('%') => {
                self.advance();
                Token::Modulo
            },
            Some('*') => {
                self.advance();
                Token::Times
            },
            Some(',') => {
                self.advance();
                Token::Comma
            },
            Some(';') => {
                self.advance();
                Token::Semicolon
            },
            Some('(') => {
                self.advance();
                Token::LParen
            },
            Some(')') => {
                self.advance();
                Token::RParen
            },
            Some('[') => {
                self.advance();
                Token::LBracket
            },
            Some(']') => {
                self.advance();
                Token::RBracket
            },
            Some('{') => {
                self.advance();
                Token::LBrace
            },
            Some('}') => {
                self.advance();
                Token::RBrace
            },
            Some(c) if is_alphabetic(c) || c == '_' => {
                let word = self.read_identifier();
                Self::keyword_or_identifier(word)
            },
            Some(c) if is_numeric(c) => {
                let num = self.read_integer();
                Token::Integer(num)
            },
            Some(_) => {
                return Err(Error::Unexpected(Span { start, end: start + 1 }));
            },
        };
        Ok(Spanned { data, span: self.span(start) })
    }

    /// Reads every token up to and including the end of input.
    pub fn tokenize(&mut self) -> (r: Result<Vec<Spanned<Token>>, Error>)
        requires
            old(self).pos <= old(self).source@.len(),
            lexing_stops(old(self).source@, old(self).pos as int),
        ensures
            final(self).source == old(self).source,
            r is Ok ==> final(self).pos == old(self).source@.len(),
            match r {
                Ok(toks) => {
                    &&& run_from(old(self).source@, old(self).pos as int) matches Some((true, _))
                    &&& tokenized(old(self).source@, old(self).pos as int, toks@)
                },
                Err(e) => run_from(old(self).source@, old(self).pos as int) matches Some(
                    (false, p),
                ) && lexed(old(self).source@, p, Err(e), final(self).pos as int),
            },
    {
        let ghost src = self.source@;
        let ghost p0 = self.pos as int;
        let mut tokens: Vec<Spanned<Token>> = Vec::new();
        loop
            invariant
                src == self.source@,
                src == old(self).source@,
                p0 == old(self).pos,
                0 <= p0,
                self.pos <= src.len(),
                run_from(src, self.pos as int) == run_from(src, p0),
                run_from(src, p0) is Some,
                tokens_lead(src, p0, tokens@, self.pos as int),
                self.source == old(self).source,
            decreases src.len() - self.pos,
        {
            let ghost before = self.pos as int;
            let token = match self.next_token() {
                Ok(token) => token,
                Err(e) => {
                    return Err(e);
                },
            };
            if let Token::Eof = token.data {
                proof {
                    let ghost last = seq![token];
                    assert(last.drop_first() =~= Seq::<Spanned<Token>>::empty());
                    assert(tokenized(src, before, last));
                    lemma_tokens_lead_concat(src, p0, tokens@, before, last);
                }
                let ghost prev = tokens@;
                tokens.push(token);
                assert(tokens@ =~= prev + seq![token]);
                assert(at_end(src, before));
                assert(self.pos == src.len());
                return Ok(tokens);
            }
            proof {
                lemma_run_from_step(src, before, token);
                lemma_tokens_lead_push(src, p0, tokens@, before, token);
            }
            tokens.push(token);
        }
    }

    /// Reads every token as `tokenize` does, or gives `Err` with the offset of
    /// a token that takes no character (a numeric character that is not an
    /// ASCII digit), where reading would never end.
    pub fn try_tokenize(&mut self) -> (r: Result<Result<Vec<Spanned<Token>>, Error>, usize>)
        requires
            old(self).pos <= old(self).source@.len(),
        ensures
            final(self).source == old(self).source,
            r is Err <==> !lexing_stops(old(self).source@, old(self).pos as int),
            r matches Ok(Ok(_)) ==> final(self).pos == old(self).source@.len(),
            match r {
                Err(p) => p == stall_pos(old(self).source@, old(self).pos as int),
                Ok(Ok(toks)) => {
                    &&& run_from(old(self).source@, old(self).pos as int) matches Some((true, _))
                    &&& tokenized(old(self).source@, old(self).pos as int, toks@)
                },
                Ok(Err(e)) => run_from(old(self).source@, old(self).pos as int) matches Some(
                    (false, p),
                ) && lexed(old(self).source@, p, Err(e), final(self).pos as int),
            },
    {
        let ghost src = self.source@;
        let ghost p0 = self.pos as int;
        let mut probe = Lexer { source: self.source, pos: self.pos };
        let n = self.source.len();
        loop
            invariant_except_break
                n == src.len(),
                src == probe.source@,
                src == self.source@,
                p0 == self.pos,
                probe.pos <= src.len(),
                run_from(src, probe.pos as int) == run_from(src, p0),
                stall_pos(src, probe.pos as int) == stall_pos(src, p0),
                self.source == old(self).source,
                self.pos == old(self).pos,
            ensures
                run_from(src, p0) is Some,
                self.source == old(self).source,
                self.pos == old(self).pos,
            decreases src.len() - probe.pos,
        {
            let before = probe.pos;
            match probe.next_token() {
                Err(_) => break,
                Ok(token) => {
                    if let Token::Eof = token.data {
                        break;
                    }
                    if probe.pos <= before {
                        proof {
                            lemma_ws_end(src, before as int);
                            assert(!step_fails(src, before as int));
                            assert(!at_end(src, before as int));
                            assert(token.span.start == ws_end(src, before as int));
                            assert(stall_pos(src, before as int) == ws_end(src, before as int));
                        }
                        return Err(token.span.start);
                    }
                },
            }
        }
        Ok(self.tokenize())
    }

    /// Reads a word and gives its keyword, or an identifier holding it.
    fn keyword_or_identifier(word: Vec<char>) -> (t: Token)
        ensures
            word_token(word@, t),
    {
        if chars_equal(&word, &['b', 'r', 'e', 'a', 'k']) {
            Token::Break
        } else if chars_equal(&word, &['f', 'o', 'r']) {
            Token::For
        } else if chars_equal(&word, &['d', 'o']) {
            Token::Do
        } else if chars_equal(&word, &['e', 'n', 'd']) {
            Token::End
        } else if chars_equal(&word, &['i', 'f']) {
            Token::If
        } else if chars_equal(&word, &['t', 'h', 'e', 'n']) {
            Token::Then
        } else if chars_equal(&word, &['e', 'l', 's', 'e']) {
            Token::Else
        } else if chars_equal(&word, &['e', 'l', 's', 'e', 'i', 'f']) {
            Token::ElseIf
        } else if chars_equal(&word, &['f', 'u', 'n', 'c', 't', 'i', 'o', 'n']) {
            Token::Function
        } else if chars_equal(&word, &['l', 'o', 'c', 'a', 'l']) {
            Token::Local
        } else if chars_equal(&word, &['r', 'e', 't', 'u', 'r', 'n']) {
            Token::Return
        } else if chars_equal(&word, &['s', 't', 'r', 'u', 'c', 't']) {
            Token::Struct
        } else if chars_equal(&word, &['i', 'n']) {
            Token::In
        } else if chars_equal(&word, &['n', 'i', 'l']) {
            Token::Nil
        } else if chars_equal(&word, &['t', 'r', 'u', 'e']) {
            Token::True
        } else if chars_equal(&word, &['f', 'a', 'l', 's', 'e']) {
            Token::False
        } else if chars_equal(&word, &['n', 'o', 't']) {
            Token::Not
        } else if chars_equal(&word, &['a', 'n', 'd']) {
            Token::And
        } else if chars_equal(&word, &['o', 'r']) {
            Token::Or
        } else {
            Token::Identifier(string_from_chars(&word))
        }
    }
}


/// Whether `c` is one of the ASCII blanks: tab, line feed, vertical tab, form
/// feed, carriage return and space.
pub open spec fn ascii_blank(c: char) -> bool {
    c == '\t' || c == '\n' || c == '\u{b}' || c == '\u{c}' || c == '\r' || c == ' '
}

/// Skipping whitespace from `i` passes exactly the characters with the
/// Unicode `White_Space` property, the ASCII blanks (tab included) among
/// them, and stops at the first other character or at the end.
pub proof fn law_whitespace_skipped(s: Seq<char>, i: int)
    requires
        0 <= i <= s.len(),
    ensures
        i <= ws_end(s, i) <= s.len(),
        forall|k: int| i <= k < ws_end(s, i) ==> unicode_whitespace(#[trigger] s[k]),
        ws_end(s, i) < s.len() ==> !unicode_whitespace(s[ws_end(s, i)]) && !ascii_blank(s[ws_end(s, i)]),
        forall|c: char| ascii_blank(c) ==> #[trigger] unicode_whitespace(c),
    decreases s.len() - i,
{
    if i < s.len() && unicode_whitespace(s[i]) {
        law_whitespace_skipped(s, i + 1);
    }
}

/// A tab in place of a space changes nothing about where whitespace ends.
pub proof fn law_tab_skips_like_space(s: Seq<char>, k: int, i: int)
    requires
        0 <= k < s.len(),
        s[k] == ' ',
        0 <= i <= s.len(),
    ensures
        ws_end(s.update(k, '\t'), i) == ws_end(s, i),
    decreases s.len() - i,
{
    let t = s.update(k, '\t');
    if i < s.len() {
        assert(unicode_whitespace(t[i]) == unicode_whitespace(s[i]));
        law_tab_skips_like_space(s, k, i + 1);
    }
}

/// The two-character operators `==`, `!=`, `<=`, `>=`, `::` and `..` are read
/// as one token spanning both characters; `=`, `<`, `>`, `:` and `.` not
/// followed by their second character are one character long.
pub proof fn law_two_character_operators(s: Seq<char>, i: int)
    requires
        0 <= i < s.len(),
    ensures
        i + 1 < s.len() && s[i] == '=' && s[i + 1] == '=' ==> punctuation(s, i) == Some((Token::EQ, 2int)),
        i + 1 < s.len() && s[i] == '!' && s[i + 1] == '=' ==> punctuation(s, i) == Some((Token::NE, 2int)),
        i + 1 < s.len() && s[i] == '<' && s[i + 1] == '=' ==> punctuation(s, i) == Some((Token::LE, 2int)),
        i + 1 < s.len() && s[i] == '>' && s[i + 1] == '=' ==> punctuation(s, i) == Some((Token::GE, 2int)),
        i + 1 < s.len() && s[i] == ':' && s[i + 1] == ':' ==> punctuation(s, i) == Some((Token::DoubleColon, 2int)),
        i + 1 < s.len() && s[i] == '.' && s[i + 1] == '.' ==> punctuation(s, i) == Some((Token::Concat, 2int)),
        s[i] == '=' && (i + 1 >= s.len() || s[i + 1] != '=') ==> punctuation(s, i) == Some((Token::Assign, 1int)),
        s[i] == '<' && (i + 1 >= s.len() || s[i + 1] != '=') ==> punctuation(s, i) == Some((Token::LT, 1int)),
        s[i] == '>' && (i + 1 >= s.len() || s[i + 1] != '=') ==> punctuation(s, i) == Some((Token::GT, 1int)),
{
}

/// Each keyword spells its own token: `do` is `Do`, `for` is `For`, `and` is
/// `And`, `or` is `Or`, and so on for every keyword.
pub proof fn law_keywords()
    ensures
        keyword(seq!['d', 'o']) == Some(Token::Do),
        keyword(seq!['f', 'o', 'r']) == Some(Token::For),
        keyword(seq!['a', 'n', 'd']) == Some(Token::And),
        keyword(seq!['o', 'r']) == Some(Token::Or),
        keyword(seq!['n', 'o', 't']) == Some(Token::Not),
        keyword(seq!['i', 'f']) == Some(Token::If),
        keyword(seq!['t', 'h', 'e', 'n']) == Some(Token::Then),
        keyword(seq!['e', 'l', 's', 'e']) == Some(Token::Else),
        keyword(seq!['e', 'l', 's', 'e', 'i', 'f']) == Some(Token::ElseIf),
        keyword(seq!['e', 'n', 'd']) == Some(Token::End),
        keyword(seq!['w', 'h', 'i', 'l', 'e']) is None,
{
    assert(seq!['d', 'o'] != seq!['b', 'r', 'e', 'a', 'k']);
    assert(seq!['d', 'o'] != seq!['f', 'o', 'r']);
    let w = seq!['e', 'l', 's', 'e', 'i', 'f'];
    assert(w.len() == 6);
    assert(w != seq!['e', 'l', 's', 'e']) by {
        assert(seq!['e', 'l', 's', 'e'].len() == 4);
    }
    assert(w != seq!['t', 'h', 'e', 'n']) by {
        assert(seq!['t', 'h', 'e', 'n'].len() == 4);
    }
    assert(w != seq!['b', 'r', 'e', 'a', 'k']) by {
        assert(seq!['b', 'r', 'e', 'a', 'k'].len() == 5);
    }
}
} // verus!
