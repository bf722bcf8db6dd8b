use lox::error::{ErrorKind, LoxError};
use lox::scanner::{characters, Scanner};
use lox::tokens::{Literal, Token, TokenType};

fn read_f64(text: &str) -> Option<u64> {
    text.parse::<f64>().ok().map(f64::to_bits)
}

fn scan(source: &str) -> (Vec<Token>, Vec<LoxError>) {
    let mut scanner = Scanner::new(source.to_owned());
    scanner.scan_tokens(&read_f64);
    scanner.into_parts()
}

fn types_of(source: &str) -> Vec<TokenType> {
    let (tokens, errors) = scan(source);
    assert!(errors.is_empty(), "{:?}", errors);
    tokens.into_iter().map(|t| t.token_type).collect()
}

fn plain(token_type: TokenType, lexeme: &str, line: u32) -> Token {
    Token::new(token_type, lexeme.to_owned(), None, line)
}

#[test]
fn empty_source_is_the_end_marker_alone() {
    let (tokens, errors) = scan("");
    assert_eq!(tokens, vec![plain(TokenType::Eof, "", 1)]);
    assert!(errors.is_empty());
}

#[test]
fn single_character_tokens() {
    assert_eq!(
        types_of("(){},.-+;*/"),
        vec![
            TokenType::LeftParen, TokenType::RightParen, TokenType::LeftBrace, TokenType::RightBrace, TokenType::Comma, TokenType::Dot, TokenType::Minus, TokenType::Plus, TokenType::Semicolon,
            TokenType::Star, TokenType::Slash, TokenType::Eof
        ]
    );
}

#[test]
fn one_or_two_character_tokens() {
    assert_eq!(
        types_of("! != = == > >= < <="),
        vec![TokenType::Bang, TokenType::BangEqual, TokenType::Equal, TokenType::EqualEqual, TokenType::Greater, TokenType::GreaterEqual, TokenType::Less, TokenType::LessEqual, TokenType::Eof]
    );
    assert_eq!(types_of("==="), vec![TokenType::EqualEqual, TokenType::Equal, TokenType::Eof]);
    assert_eq!(types_of("!==="), vec![TokenType::BangEqual, TokenType::EqualEqual, TokenType::Eof]);
    assert_eq!(types_of("<"), vec![TokenType::Less, TokenType::Eof]);
    let (tokens, _) = scan("a>=b");
    assert_eq!(tokens[1], plain(TokenType::GreaterEqual, ">=", 1));
}

#[test]
fn keywords_and_identifiers() {
    assert_eq!(
        types_of(
            "and class else false for fun if nil or print return super this true var while"
        ),
        vec![
            TokenType::And, TokenType::Class, TokenType::Else, TokenType::False, TokenType::For, TokenType::Fun, TokenType::If, TokenType::Nil, TokenType::Or, TokenType::Print, TokenType::Return, TokenType::Super, TokenType::This, TokenType::True,
            TokenType::Var, TokenType::While, TokenType::Eof
        ]
    );
    assert_eq!(
        types_of("And classes e fals forx fu iff ni orr prin returns supe thi tru va whil x1"),
        vec![
            TokenType::Identifier, TokenType::Identifier, TokenType::Identifier, TokenType::Identifier, TokenType::Identifier, TokenType::Identifier, TokenType::Identifier,
            TokenType::Identifier, TokenType::Identifier, TokenType::Identifier, TokenType::Identifier, TokenType::Identifier, TokenType::Identifier, TokenType::Identifier,
            TokenType::Identifier, TokenType::Identifier, TokenType::Identifier, TokenType::Eof
        ]
    );
    let (tokens, _) = scan("var answer42");
    assert_eq!(tokens[0], plain(TokenType::Var, "var", 1));
    assert_eq!(
        tokens[1],
        Token::new(
            TokenType::Identifier,
            "answer42".to_owned(),
            Some(Literal::Identifier("answer42".to_owned())),
            1
        )
    );
}

#[test]
fn a_word_ends_at_an_underscore() {
    let (tokens, errors) = scan("a_b");
    assert_eq!(
        tokens.iter().map(|t| t.lexeme.as_str()).collect::<Vec<_>>(),
        vec!["a", "b", ""]
    );
    assert_eq!(errors.len(), 1);
    assert_eq!(errors[0].kind, ErrorKind::UnexpectedCharacter);
    assert_eq!(errors[0].chars_in_line, "_");
    assert_eq!(errors[0].loc_in_line, 1);
}

#[test]
fn numerals_are_runs_of_digits() {
    let (tokens, errors) = scan("12 007");
    assert!(errors.is_empty());
    assert_eq!(
        tokens,
        vec![
            Token::new(
                TokenType::Number,
                "12".to_owned(),
                Some(Literal::Number(12.0f64.to_bits())),
                1
            ),
            Token::new(
                TokenType::Number,
                "007".to_owned(),
                Some(Literal::Number(7.0f64.to_bits())),
                1
            ),
            plain(TokenType::Eof, "", 1),
        ]
    );
}

#[test]
fn a_point_ends_a_numeral() {
    assert_eq!(types_of("1.5"), vec![TokenType::Number, TokenType::Dot, TokenType::Number, TokenType::Eof]);
    assert_eq!(types_of("1."), vec![TokenType::Number, TokenType::Dot, TokenType::Eof]);
    assert_eq!(types_of("12abc"), vec![TokenType::Number, TokenType::Identifier, TokenType::Eof]);
}

#[test]
fn a_numeral_that_cannot_be_read_is_an_error() {
    let mut scanner = Scanner::new("1 23 4".to_owned());
    scanner.scan_tokens(&|text: &str| if text == "23" { None } else { Some(text.len() as u64) });
    let (tokens, errors) = scanner.into_parts();
    assert_eq!(
        tokens.iter().map(|t| t.lexeme.as_str()).collect::<Vec<_>>(),
        vec!["1", "4", ""]
    );
    assert_eq!(tokens[0].literal, Some(Literal::Number(1)));
    assert_eq!(
        errors,
        vec![LoxError::new(
            ErrorKind::MalformedNumber,
            1,
            2,
            "23".to_owned(),
            "Expected number but failed to parse".to_owned()
        )]
    );
}

#[test]
fn strings_keep_their_text() {
    let (tokens, errors) = scan("\"hello world\" \"\"");
    assert!(errors.is_empty());
    assert_eq!(
        tokens,
        vec![
            Token::new(
                TokenType::String,
                "\"hello world\"".to_owned(),
                Some(Literal::String("hello world".to_owned())),
                1
            ),
            Token::new(
                TokenType::String,
                "\"\"".to_owned(),
                Some(Literal::String("".to_owned())),
                1
            ),
            plain(TokenType::Eof, "", 1),
        ]
    );
}

#[test]
fn strings_may_hold_any_character() {
    let (tokens, errors) = scan("\"h\u{e9}llo // \u{4e16}\u{754c}\" x");
    assert!(errors.is_empty());
    assert_eq!(
        tokens[0].literal,
        Some(Literal::String("h\u{e9}llo // \u{4e16}\u{754c}".to_owned()))
    );
    assert_eq!(tokens[1].lexeme, "x");
}

#[test]
fn lines_are_counted_from_one() {
    let (tokens, errors) = scan("a\nb\n\n\"x\ny\" c // d\ne");
    assert!(errors.is_empty());
    let lines: Vec<(String, u32)> = tokens.into_iter().map(|t| (t.lexeme, t.line)).collect();
    assert_eq!(
        lines,
        vec![
            ("a".to_owned(), 1),
            ("b".to_owned(), 2),
            ("\"x\ny\"".to_owned(), 5),
            ("c".to_owned(), 5),
            ("e".to_owned(), 6),
            ("".to_owned(), 6),
        ]
    );
}

#[test]
fn comments_run_to_the_end_of_the_line() {
    assert_eq!(types_of("1 // two three\n4"), vec![TokenType::Number, TokenType::Number, TokenType::Eof]);
    assert_eq!(types_of("// only a comment"), vec![TokenType::Eof]);
    assert_eq!(types_of("1 / 2"), vec![TokenType::Number, TokenType::Slash, TokenType::Number, TokenType::Eof]);
    let (tokens, _) = scan("// c\nx");
    assert_eq!(tokens[0].line, 2);
}

#[test]
fn white_space_is_skipped() {
    assert_eq!(types_of(" \t\r\n x \t"), vec![TokenType::Identifier, TokenType::Eof]);
}

#[test]
fn an_open_string_is_an_error() {
    let (tokens, errors) = scan("x \"abc\ndef");
    assert_eq!(
        tokens.iter().map(|t| t.token_type).collect::<Vec<_>>(),
        vec![TokenType::Identifier, TokenType::Eof]
    );
    assert_eq!(
        errors,
        vec![LoxError::new(
            ErrorKind::UnterminatedString,
            2,
            2,
            "\"abc\ndef".to_owned(),
            "Unterminated string".to_owned()
        )]
    );
    assert_eq!(tokens[1].line, 2);
}

#[test]
fn an_unexpected_character_is_an_error_and_scanning_goes_on() {
    let (tokens, errors) = scan("a @ b #");
    assert_eq!(
        tokens.iter().map(|t| t.lexeme.as_str()).collect::<Vec<_>>(),
        vec!["a", "b", ""]
    );
    assert_eq!(
        errors,
        vec![
            LoxError::new(
                ErrorKind::UnexpectedCharacter,
                1,
                2,
                "@".to_owned(),
                "Unexpected character".to_owned()
            ),
            LoxError::new(
                ErrorKind::UnexpectedCharacter,
                1,
                6,
                "#".to_owned(),
                "Unexpected character".to_owned()
            ),
        ]
    );
}

#[test]
fn a_character_outside_ascii_is_unexpected() {
    let (tokens, errors) = scan("\u{e9} x");
    assert_eq!(tokens.len(), 2);
    assert_eq!(errors.len(), 1);
    assert_eq!(errors[0].chars_in_line, "\u{e9}");
    assert_eq!(tokens[0].lexeme, "x");
}

#[test]
fn tokens_alone_can_be_taken() {
    let mut scanner = Scanner::new("print 1;".to_owned());
    scanner.scan_tokens(&read_f64);
    let tokens = scanner.tokens();
    assert_eq!(tokens.len(), 4);
    assert_eq!(tokens[3].token_type, TokenType::Eof);
}

#[test]
fn characters_of_a_text() {
    assert_eq!(characters("a\u{e9}\u{4e16}"), vec!['a', '\u{e9}', '\u{4e16}']);
    assert_eq!(characters(""), Vec::<char>::new());
}
