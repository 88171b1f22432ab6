use minilua::lexer::{token_debug_text, Lexer, Token};
use minilua::source::Source;
use minilua::text::{chars_equal, int_to_string, is_ascii_digit, string_is, u64_to_string, usize_to_string};

fn tokens_of(text: &str) -> Vec<Token> {
    let source = Source::new(String::new(), text);
    let mut lexer = Lexer::new(&source);
    lexer.tokenize().unwrap().into_iter().map(|t| t.data).collect()
}

#[test]
fn character_classes_follow_unicode() {
    assert_eq!(
        tokens_of("\u{e9}1\u{2003}x\ny_2"),
        vec![
            Token::Identifier("\u{e9}1".to_string()),
            Token::Identifier("x".to_string()),
            Token::Identifier("y_2".to_string()),
            Token::Eof,
        ]
    );
    assert_eq!(tokens_of("7"), vec![Token::Integer(7), Token::Eof]);
    let source = Source::new(String::new(), "\u{bd}");
    let mut lexer = Lexer::new(&source);
    assert!(lexer.try_tokenize().is_err());
    assert!(is_ascii_digit('0'));
    assert!(!is_ascii_digit('\u{bd}'));
}

#[test]
fn decimal_text_of_integers() {
    assert_eq!(u64_to_string(0), "0");
    assert_eq!(u64_to_string(1234567890123), "1234567890123");
    assert_eq!(u64_to_string(u64::MAX), "18446744073709551615");
    assert_eq!(usize_to_string(42), "42");
    assert_eq!(int_to_string(-17), "-17");
    assert_eq!(int_to_string(i64::MIN), "-9223372036854775808");
    assert_eq!(int_to_string(5), "5");
}

#[test]
fn debug_text_of_strings_is_quoted_and_escaped() {
    assert_eq!(token_debug_text(&Token::String("ab".to_string())), "String(\"ab\")");
    assert_eq!(token_debug_text(&Token::String("a\"b\n".to_string())), "String(\"a\\\"b\\n\")");
}

#[test]
fn strings_from_characters() {
    assert_eq!(tokens_of("\"hi\""), vec![Token::String("hi".to_string()), Token::Eof]);
    assert!(chars_equal(&vec!['d', 'o'], &['d', 'o']));
    assert!(!chars_equal(&vec!['d'], &['d', 'o']));
    assert!(string_is(&"end".to_string(), &['e', 'n', 'd']));
    assert!(!string_is(&"end".to_string(), &['e', 'n']));
}
