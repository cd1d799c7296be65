//! Unit tests of the lexer, the preprocessor, the parser and the text
//! helpers.

use black::parser::{lexer, preprocess, Bool, Expr, Parser, Token, Type};
use black::utils::{escape_string, i64_to_string, u64_to_string, ErrorType};

#[test]
fn lex_declaration() {
    let tokens = lexer("let int a = 42").unwrap();
    assert_eq!(
        tokens,
        vec![
            Token::Let,
            Token::Type(Type::Int),
            Token::Identifier("a".to_string()),
            Token::Equals,
            Token::Number(42),
        ]
    );
}

#[test]
fn lex_keyword_needs_boundary() {
    // `intx` is an identifier, not the `int` type
    let tokens = lexer("intx").unwrap();
    assert_eq!(tokens, vec![Token::Identifier("intx".to_string())]);
}

#[test]
fn lex_underscore_ends_keyword() {
    // an underscore is not alphanumeric, so it terminates a keyword match
    let tokens = lexer("int_x").unwrap();
    assert_eq!(
        tokens,
        vec![Token::Type(Type::Int), Token::Identifier("_x".to_string())]
    );
}

#[test]
fn lex_string_and_punctuation() {
    let tokens = lexer("print(\"hi\", true)").unwrap();
    assert_eq!(
        tokens,
        vec![
            Token::Identifier("print".to_string()),
            Token::LeftParen,
            Token::StringLiteral("hi".to_string()),
            Token::Comma,
            Token::True,
            Token::RightParen,
        ]
    );
}

#[test]
fn lex_unterminated_string_is_error() {
    let err = lexer("\"oops").unwrap_err();
    assert_eq!(
        err,
        ErrorType::SyntaxError("Unexpected token: \"oops".to_string())
    );
}

#[test]
fn lex_unexpected_character_is_error() {
    let err = lexer("print(@)").unwrap_err();
    assert_eq!(err, ErrorType::SyntaxError("Unexpected token: @)".to_string()));
}

#[test]
fn lex_number_overflow_is_error() {
    let err = lexer("99999999999999999999").unwrap_err();
    assert_eq!(
        err,
        ErrorType::SyntaxError("Unexpected token: 99999999999999999999".to_string())
    );
}

#[test]
fn preprocess_strips_comments() {
    let code = "// all gone\nprint(1) // tail\nplain";
    assert_eq!(preprocess(code), "print(1) \nplain");
}

#[test]
fn parse_binary_is_left_associative() {
    let tokens = lexer("1-2-3").unwrap();
    let mut parser = Parser::new(tokens);
    let ast = parser.parse().unwrap();
    assert_eq!(ast.len(), 1);
    match &ast[0] {
        Expr::BinExpr(outer) => match &outer.lhs {
            Expr::BinExpr(inner) => {
                assert_eq!(inner.lhs, Expr::Number(1));
                assert_eq!(inner.rhs, Expr::Number(2));
                assert_eq!(outer.rhs, Expr::Number(3));
            }
            other => panic!("expected nested binary expression, got {:?}", other),
        },
        other => panic!("expected binary expression, got {:?}", other),
    }
}

#[test]
fn parse_parentheses_group() {
    let tokens = lexer("(1)").unwrap();
    let mut parser = Parser::new(tokens);
    let ast = parser.parse().unwrap();
    assert_eq!(ast, vec![Expr::Number(1)]);
}

#[test]
fn parse_missing_close_paren_is_error() {
    let tokens = lexer("(1").unwrap();
    let mut parser = Parser::new(tokens);
    let err = parser.parse().unwrap_err();
    assert_eq!(err, ErrorType::SyntaxError("Expected ')'".to_string()));
}

#[test]
fn parse_missing_equals_is_error() {
    let tokens = lexer("let a 1").unwrap();
    let mut parser = Parser::new(tokens);
    let err = parser.parse().unwrap_err();
    assert_eq!(
        err,
        ErrorType::SyntaxError("Expected '=' after variable name".to_string())
    );
}

#[test]
fn parse_missing_identifier_is_error() {
    let tokens = lexer("let int = 1").unwrap();
    let mut parser = Parser::new(tokens);
    let err = parser.parse().unwrap_err();
    assert_eq!(
        err,
        ErrorType::SyntaxError("Expected identifier after variable type".to_string())
    );
}

#[test]
fn parse_unexpected_token_names_it() {
    let tokens = lexer("let a = )").unwrap();
    let mut parser = Parser::new(tokens);
    let err = parser.parse().unwrap_err();
    assert_eq!(
        err,
        ErrorType::SyntaxError("Unexpected token: RightParen".to_string())
    );
}

#[test]
fn parse_dangling_operator_is_error() {
    let tokens = lexer("1+").unwrap();
    let mut parser = Parser::new(tokens);
    let err = parser.parse().unwrap_err();
    assert_eq!(
        err,
        ErrorType::SyntaxError("Unexpected end of input".to_string())
    );
}

#[test]
fn parse_function_call_arguments() {
    let tokens = lexer("f(1, 2)").unwrap();
    let mut parser = Parser::new(tokens);
    let ast = parser.parse().unwrap();
    match &ast[0] {
        Expr::FuncCall(fc) => {
            assert_eq!(fc.name, "f");
            assert_eq!(fc.arguments, vec![Expr::Number(1), Expr::Number(2)]);
        }
        other => panic!("expected function call, got {:?}", other),
    }
}

#[test]
fn parse_bool_literals() {
    let tokens = lexer("let bool b = true").unwrap();
    let mut parser = Parser::new(tokens);
    let ast = parser.parse().unwrap();
    match &ast[0] {
        Expr::VariableDeclaration(d) => {
            assert_eq!(d.typ, Some(Type::Bool));
            assert_eq!(d.value, Expr::Bool(Bool::True));
        }
        other => panic!("expected declaration, got {:?}", other),
    }
}

#[test]
fn decimal_text_of_numbers() {
    assert_eq!(u64_to_string(0), "0");
    assert_eq!(u64_to_string(907), "907");
    assert_eq!(i64_to_string(-45), "-45");
    assert_eq!(i64_to_string(i64::MIN), "-9223372036854775808");
    assert_eq!(i64_to_string(i64::MAX), "9223372036854775807");
}

#[test]
fn escape_string_escapes_quotes_and_backslashes() {
    assert_eq!(escape_string("a\"b\\c"), "a\\\"b\\\\c");
    assert_eq!(escape_string("plain"), "plain");
}

#[test]
fn leading_zeros_rescan() {
    // a numeric token reports the length of its canonical text, so `007`
    // is scanned three times, each time as the number it parses to
    let tokens = lexer("007").unwrap();
    assert_eq!(
        tokens,
        vec![Token::Number(7), Token::Number(7), Token::Number(7)]
    );
}

#[test]
fn parse_unclosed_block_is_error() {
    let tokens = lexer("{ 1").unwrap();
    let mut parser = Parser::new(tokens);
    let err = parser.parse().unwrap_err();
    assert_eq!(
        err,
        ErrorType::SyntaxError("Unexpected end of input".to_string())
    );
}

#[test]
fn parse_closed_block() {
    let tokens = lexer("{ 1 }").unwrap();
    let mut parser = Parser::new(tokens);
    let ast = parser.parse().unwrap();
    assert_eq!(ast, vec![Expr::Block(vec![Expr::Number(1)])]);
}
