use kaleidoscope::lexer::{Lexer, LexerError, Operator, Token};

fn toks(input: &str) -> Vec<Token> {
    Lexer::new(input.chars().collect()).tokenize().unwrap()
}

#[test]
fn test_lexer() {
    let input = "3.141592 def fib x";
    let mut lexer = Lexer::new(input.chars().collect());
    assert_eq!(lexer.get_token(), Ok(Token::Number("3.141592".to_string())));
    assert_eq!(lexer.get_token(), Ok(Token::Def));
    assert_eq!(lexer.get_token(), Ok(Token::Identifier("fib".to_string())));
    assert_eq!(lexer.get_token(), Ok(Token::Identifier("x".to_string())));
    assert_eq!(lexer.get_token(), Ok(Token::EOF));
}

#[test]
fn tokenize_number_keyword_identifiers() {
    assert_eq!(
        toks("3.141592 def fib x"),
        vec![
            Token::Number("3.141592".to_string()),
            Token::Def,
            Token::Identifier("fib".to_string()),
            Token::Identifier("x".to_string()),
        ]
    );
}

#[test]
fn tokenize_comment_only_line_is_empty() {
    assert_eq!(toks("# comment"), Vec::<Token>::new());
}

#[test]
fn tokenize_comment_then_code() {
    assert_eq!(
        toks("# heading\nextern sin(x);"),
        vec![
            Token::Extern,
            Token::Identifier("sin".to_string()),
            Token::OpenParenthesis,
            Token::Identifier("x".to_string()),
            Token::CloseParenthesis,
            Token::SemiColon,
        ]
    );
}

#[test]
fn tokenize_punctuation_and_operators() {
    assert_eq!(
        toks("(),;<+-*"),
        vec![
            Token::OpenParenthesis,
            Token::CloseParenthesis,
            Token::Comma,
            Token::SemiColon,
            Token::Operator(Operator::LessThan),
            Token::Operator(Operator::Plus),
            Token::Operator(Operator::Minus),
            Token::Operator(Operator::Times),
        ]
    );
}

#[test]
fn unknown_character_is_reported_exactly() {
    let r = Lexer::new("3 @ 4".chars().collect()).tokenize();
    assert_eq!(r, Err(LexerError::UnknownInitial('@')));
}

#[test]
fn unknown_character_at_start() {
    let r = Lexer::new("~".chars().collect()).tokenize();
    assert_eq!(r, Err(LexerError::UnknownInitial('~')));
}

#[test]
fn malformed_number_two_dots() {
    let r = Lexer::new("1.2.3".chars().collect()).tokenize();
    assert_eq!(r, Err(LexerError::InvalidNumber("1.2.3".to_string())));
}

#[test]
fn malformed_number_lone_dot() {
    let r = Lexer::new(".".chars().collect()).tokenize();
    assert_eq!(r, Err(LexerError::InvalidNumber(".".to_string())));
}

#[test]
fn numbers_with_leading_or_trailing_dot() {
    assert_eq!(
        toks(".5 1."),
        vec![
            Token::Number(".5".to_string()),
            Token::Number("1.".to_string()),
        ]
    );
}

#[test]
fn keywords_are_exact_matches_only() {
    assert_eq!(
        toks("define externs"),
        vec![
            Token::Identifier("define".to_string()),
            Token::Identifier("externs".to_string()),
        ]
    );
}

#[test]
fn empty_input_has_no_tokens() {
    assert_eq!(toks(""), Vec::<Token>::new());
    assert_eq!(toks("   \t\r\n"), Vec::<Token>::new());
}
