use minilua::lexer::{Error, Lexer, Token};
use minilua::source::{Source, Span};

fn lex(text: &str) -> Result<Vec<(Token, usize, usize)>, Error> {
    let source = Source::new(String::new(), text);
    let mut lexer = Lexer::new(&source);
    lexer
        .tokenize()
        .map(|toks| toks.into_iter().map(|t| (t.data, t.span.start, t.span.end)).collect())
}

#[test]
fn binding_is_read_token_by_token() {
    assert_eq!(
        lex("local x = 12").unwrap(),
        vec![
            (Token::Local, 0, 5),
            (Token::Identifier("x".to_string()), 6, 7),
            (Token::Assign, 8, 9),
            (Token::Integer(12), 10, 12),
            (Token::Eof, 12, 12),
        ]
    );
}

#[test]
fn empty_text_gives_only_the_end() {
    assert_eq!(lex("   \n").unwrap(), vec![(Token::Eof, 4, 4)]);
}

#[test]
fn keywords_and_identifiers() {
    let toks: Vec<Token> = lex("if then else elseif end function return struct break for in nil true false not and or x_1")
        .unwrap()
        .into_iter()
        .map(|t| t.0)
        .collect();
    assert_eq!(
        toks,
        vec![
            Token::If,
            Token::Then,
            Token::Else,
            Token::ElseIf,
            Token::End,
            Token::Function,
            Token::Return,
            Token::Struct,
            Token::Break,
            Token::For,
            Token::In,
            Token::Nil,
            Token::True,
            Token::False,
            Token::Not,
            Token::And,
            Token::Or,
            Token::Identifier("x_1".to_string()),
            Token::Eof,
        ]
    );
}

#[test]
fn do_reads_as_its_keyword() {
    assert_eq!(lex("do").unwrap(), vec![(Token::Do, 0, 2), (Token::Eof, 2, 2)]);
}

#[test]
fn not_equal_takes_both_characters() {
    assert_eq!(
        lex("!= b").unwrap(),
        vec![(Token::NE, 0, 2), (Token::Identifier("b".to_string()), 3, 4), (Token::Eof, 4, 4)]
    );
}

#[test]
fn punctuation_takes_one_or_two_characters() {
    let toks: Vec<Token> = lex("== = :: : .. . <= < >= > + - * / % , ; ( ) [ ] { }")
        .unwrap()
        .into_iter()
        .map(|t| t.0)
        .collect();
    assert_eq!(
        toks,
        vec![
            Token::EQ,
            Token::Assign,
            Token::DoubleColon,
            Token::Colon,
            Token::Concat,
            Token::Dot,
            Token::LE,
            Token::LT,
            Token::GE,
            Token::GT,
            Token::Add,
            Token::Minus,
            Token::Times,
            Token::Divide,
            Token::Modulo,
            Token::Comma,
            Token::Semicolon,
            Token::LParen,
            Token::RParen,
            Token::LBracket,
            Token::RBracket,
            Token::LBrace,
            Token::RBrace,
            Token::Eof,
        ]
    );
}

#[test]
fn strings_and_comments() {
    assert_eq!(
        lex("\"hi there\" // note\nx").unwrap(),
        vec![
            (Token::String("hi there".to_string()), 0, 10),
            (Token::Comment, 11, 18),
            (Token::Identifier("x".to_string()), 19, 20),
            (Token::Eof, 20, 20),
        ]
    );
}

#[test]
fn integer_literals_wrap_modulo_two_to_the_64() {
    assert_eq!(lex("18446744073709551617").unwrap()[0].0, Token::Integer(1));
}

#[test]
fn unexpected_character_is_an_error() {
    assert_eq!(lex("x = 1 @ 2").unwrap_err(), Error::Unexpected(Span { start: 6, end: 7 }));
}

#[test]
fn unterminated_string_is_an_error_to_the_end() {
    assert_eq!(lex("x = \"abc").unwrap_err(), Error::Unexpected(Span { start: 4, end: 8 }));
}

#[test]
fn next_token_skips_whitespace() {
    let source = Source::new(String::new(), "  ab 7");
    let mut lexer = Lexer::new(&source);
    let t = lexer.next_token().unwrap();
    assert_eq!(t.data, Token::Identifier("ab".to_string()));
    assert_eq!(t.span, Span { start: 2, end: 4 });
    assert_eq!(lexer.pos, 4);
    let t = lexer.next_token().unwrap();
    assert_eq!(t.data, Token::Integer(7));
    assert_eq!(lexer.next_token().unwrap().data, Token::Eof);
}

#[test]
fn reading_helpers() {
    let source = Source::new(String::new(), "  abc_1 42x");
    let mut lexer = Lexer::new(&source);
    assert_eq!(lexer.current(), Some(' '));
    lexer.skip_whitespace();
    assert_eq!(lexer.pos, 2);
    assert_eq!(lexer.peek(1), Some('b'));
    assert_eq!(lexer.read_identifier(), vec!['a', 'b', 'c', '_', '1']);
    assert_eq!(lexer.span(2), Span { start: 2, end: 7 });
    lexer.advance();
    assert_eq!(lexer.read_integer(), 42);
    assert_eq!(lexer.current(), Some('x'));
    assert_eq!(lexer.peek(5), None);
}

#[test]
fn a_non_ascii_numeral_would_stall_the_lexer() {
    let source = Source::new(String::new(), "x = ½");
    let mut lexer = Lexer::new(&source);
    assert_eq!(lexer.try_tokenize().unwrap_err(), 4);
    let source = Source::new(String::new(), "x = 1");
    let mut lexer = Lexer::new(&source);
    assert_eq!(lexer.try_tokenize().unwrap().unwrap().len(), 4);
}

#[test]
fn same_kind_ignores_the_payload() {
    assert!(Token::Integer(1).same_kind_as(&Token::Integer(2)));
    assert!(!Token::Integer(1).same_kind_as(&Token::Identifier("1".to_string())));
}

#[test]
fn lexing_leaves_the_position_at_the_end() {
    let source = Source::new(String::new(), "local é = 1  ");
    let mut lexer = Lexer::new(&source);
    assert!(lexer.tokenize().is_ok());
    assert_eq!(lexer.pos, 13);
}
