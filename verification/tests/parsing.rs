use kaleidoscope::lexer::{Lexer, Operator, Token};
use kaleidoscope::parser::{ExprAST, ParseWarning, Parser, ParserError, Prototype};

fn parse_one(input: &str) -> Result<(ExprAST, Option<ParseWarning>), ParserError> {
    let tokens = Lexer::new(input.chars().collect()).tokenize().unwrap();
    Parser::new(tokens).parse()
}

fn num(text: &str) -> ExprAST {
    ExprAST::Number(text.to_string())
}

fn bin(op: Operator, lhs: ExprAST, rhs: ExprAST) -> ExprAST {
    ExprAST::BinaryOp {
        op,
        lhs: Box::new(lhs),
        rhs: Box::new(rhs),
    }
}

#[test]
fn times_binds_tighter_on_the_right() {
    let (ast, warning) = parse_one("1+2*3;").unwrap();
    assert_eq!(
        ast,
        bin(
            Operator::Plus,
            num("1"),
            bin(Operator::Times, num("2"), num("3"))
        )
    );
    assert_eq!(warning, None);
}

#[test]
fn equal_precedence_is_left_associative() {
    let (ast, _) = parse_one("1*2+3;").unwrap();
    assert_eq!(
        ast,
        bin(
            Operator::Plus,
            bin(Operator::Times, num("1"), num("2")),
            num("3")
        )
    );
}

#[test]
fn chain_of_equal_precedence() {
    let (ast, _) = parse_one("1-2+3;").unwrap();
    assert_eq!(
        ast,
        bin(
            Operator::Plus,
            bin(Operator::Minus, num("1"), num("2")),
            num("3")
        )
    );
}

#[test]
fn comparison_has_lowest_precedence() {
    let (ast, _) = parse_one("1<2*3;").unwrap();
    assert_eq!(
        ast,
        bin(
            Operator::LessThan,
            num("1"),
            bin(Operator::Times, num("2"), num("3"))
        )
    );
}

#[test]
fn parentheses_override_precedence() {
    let (ast, _) = parse_one("(1+2)*3;").unwrap();
    assert_eq!(
        ast,
        bin(
            Operator::Times,
            bin(Operator::Plus, num("1"), num("2")),
            num("3")
        )
    );
}

#[test]
fn function_definition_with_two_parameters() {
    let (ast, warning) = parse_one("def foo(a b) a+b;").unwrap();
    assert_eq!(
        ast,
        ExprAST::Function {
            proto: Prototype {
                name: "foo".to_string(),
                args: vec!["a".to_string(), "b".to_string()],
            },
            body: Box::new(bin(
                Operator::Plus,
                ExprAST::Variable("a".to_string()),
                ExprAST::Variable("b".to_string())
            )),
        }
    );
    assert_eq!(warning, None);
}

#[test]
fn extern_declaration() {
    let (ast, _) = parse_one("extern sin(x);").unwrap();
    assert_eq!(
        ast,
        ExprAST::Prototype(Prototype {
            name: "sin".to_string(),
            args: vec!["x".to_string()],
        })
    );
}

#[test]
fn call_with_arguments() {
    let (ast, _) = parse_one("foo(1,2+3);").unwrap();
    assert_eq!(
        ast,
        ExprAST::Call {
            callee: "foo".to_string(),
            args: vec![num("1"), bin(Operator::Plus, num("2"), num("3"))],
        }
    );
}

#[test]
fn call_without_arguments() {
    let (ast, _) = parse_one("foo();").unwrap();
    assert_eq!(
        ast,
        ExprAST::Call {
            callee: "foo".to_string(),
            args: vec![],
        }
    );
}

#[test]
fn empty_input_is_an_error() {
    assert_eq!(parse_one(""), Err(ParserError::EmptyInput));
}

#[test]
fn missing_function_name_in_prototype() {
    assert_eq!(parse_one("def (a);"), Err(ParserError::ExpectedFunctionName));
}

#[test]
fn missing_open_paren_in_prototype() {
    assert_eq!(
        parse_one("def foo;"),
        Err(ParserError::ExpectedOpenParenInPrototype)
    );
}

#[test]
fn missing_close_paren_in_prototype() {
    assert_eq!(
        parse_one("def foo(a;"),
        Err(ParserError::ExpectedCloseParenInPrototype)
    );
}

#[test]
fn missing_close_paren_or_comma_in_arguments() {
    assert_eq!(
        parse_one("foo(1;"),
        Err(ParserError::ExpectedCloseParenOrComma)
    );
}

#[test]
fn missing_close_paren_after_expression() {
    assert_eq!(parse_one("(1+2;"), Err(ParserError::ExpectedCloseParen));
}

#[test]
fn operator_alone_is_not_an_expression() {
    assert_eq!(parse_one("+1;"), Err(ParserError::ExpectedExpression));
}

#[test]
fn missing_semicolon_is_a_warning_not_an_error() {
    let (ast, warning) = parse_one("1+2").unwrap();
    assert_eq!(ast, bin(Operator::Plus, num("1"), num("2")));
    assert_eq!(warning, Some(ParseWarning::MissingSemicolon));
}

#[test]
fn trailing_tokens_are_drained_into_a_warning() {
    let (ast, warning) = parse_one("1 2").unwrap();
    assert_eq!(ast, num("1"));
    assert_eq!(
        warning,
        Some(ParseWarning::TrailingTokens(vec![Token::Number(
            "2".to_string()
        )]))
    );
}

#[test]
fn error_messages_match_their_kinds() {
    assert_eq!(ParserError::EmptyInput.message(), "Unimplemented");
    assert_eq!(
        ParserError::ExpectedFunctionName.message(),
        "Expected function name in prototype"
    );
    assert_eq!(
        ParserError::ExpectedOpenParenInPrototype.message(),
        "Expected '(' in prototype"
    );
    assert_eq!(
        ParserError::ExpectedCloseParenInPrototype.message(),
        "Expected ')' in prototype"
    );
    assert_eq!(
        ParserError::ExpectedCloseParenOrComma.message(),
        "Expected ')' or ',' in argument list"
    );
    assert_eq!(ParserError::ExpectedCloseParen.message(), "Expected ')'");
    assert_eq!(
        ParserError::ExpectedExpression.message(),
        "Expected expression"
    );
}

#[test]
fn duplicated_parameter_names_are_accepted_at_parse_time() {
    let (ast, _) = parse_one("def f(x x) x;").unwrap();
    match ast {
        ExprAST::Function { proto, .. } => {
            assert_eq!(proto.args, vec!["x".to_string(), "x".to_string()]);
        }
        other => panic!("expected a function definition, got {:?}", other),
    }
}
