//! End-to-end tests running source text through preprocessing, lexing,
//! parsing, and then the interpreter or the compiler's IR generation.

use black::compiler::Compiler;
use black::interpreter::Interpreter;
use black::parser::{lexer, preprocess, Parser};
use black::utils::ErrorType;

/// Interprets a program and returns its output with surrounding
/// whitespace trimmed, panicking on any error.
fn interpret(code: &str) -> String {
    let code = preprocess(code);
    let tokens = lexer(&code).expect("lexing failed");
    let mut parser = Parser::new(tokens);
    let ast = parser.parse().expect("parsing failed");
    let mut interpreter = Interpreter::from_ast(ast);
    interpreter.run().expect("interpretation failed");
    interpreter.output.trim().to_string()
}

/// Compiles a program to IR, panicking on any error: the error tests below
/// assert on the result instead.
fn compile_ir(code: &str) -> String {
    let code = preprocess(code);
    let tokens = lexer(&code).expect("lexing failed");
    let mut parser = Parser::new(tokens);
    let ast = parser.parse().expect("parsing failed");
    let mut compiler = Compiler::from_ast(ast);
    compiler.generate_ir().expect("IR generation failed")
}

fn get_compiler_res(code: &str) -> Result<(), ErrorType> {
    // Preprocessor
    let code = preprocess(code);

    // Lexer
    let tokens = match lexer(&code) {
        Ok(tokens) => tokens,
        Err(_) => unreachable!(),
    };

    // Parser
    let mut parser = Parser::new(tokens);
    let ast = match parser.parse() {
        Ok(ast) => ast,
        Err(_) => unreachable!(),
    };

    // Compiler
    let mut compiler = Compiler::from_ast(ast);
    compiler.generate_ir().map(|_| ())
}

fn get_interpreter_res(code: &str) -> Result<(), ErrorType> {
    // Preprocessor
    let code = preprocess(code);

    // Lexer
    let tokens = match lexer(&code) {
        Ok(tokens) => tokens,
        Err(_) => unreachable!(),
    };

    // Parser
    let mut parser = Parser::new(tokens);
    let ast = match parser.parse() {
        Ok(ast) => ast,
        Err(_) => unreachable!(),
    };

    // Interpreter
    let mut interpreter = Interpreter::from_ast(ast);

    interpreter.run()
}

fn assert_error(result: Result<(), ErrorType>, expected: &ErrorType) {
    match result {
        Err(err) => assert!(err == *expected),
        Ok(_) => panic!("Expected an error, but got Ok"),
    }
}

#[test]
fn print_str() {
    let code = r#"print("hello")"#;
    let expected = "hello";
    assert!(interpret(code) == expected);
    assert!(get_compiler_res(code).is_ok());
}

#[test]
fn print_int() {
    let code = r#"print(1)"#;
    let expected = "1";
    assert!(interpret(code) == expected);
    assert!(get_compiler_res(code).is_ok());
}

#[test]
fn print_var_str() {
    let code = r#"
let a = "hello"
print(a)
"#;
    let expected = "hello";
    assert!(interpret(code) == expected);
    assert!(get_compiler_res(code).is_ok());
}

#[test]
fn print_var_int() {
    let code = r#"
let a = 1
print(a)
"#;
    let expected = "1";
    assert!(interpret(code) == expected);
    assert!(get_compiler_res(code).is_ok());
}

#[test]
fn print_multiple_args() {
    let code = r#"print("hello", 1)"#;
    let expected = "hello 1";
    assert!(interpret(code) == expected);
    assert!(get_compiler_res(code).is_ok());
}

#[test]
fn print_bin_expr() {
    let code = r#"
print(1+1)
"#;
    let expected = "2";
    assert!(interpret(code) == expected);
    assert!(get_compiler_res(code).is_ok());
}

#[test]
fn print_complex_bin_expr() {
    let code = r#"
print(1*2+3)
"#;
    let expected = "5";
    assert!(interpret(code) == expected);
    assert!(get_compiler_res(code).is_ok());
}

#[test]
fn print_complex_bin_expr_2() {
    let code = r#"
let a = 2*4
let b = a*2
print(1*b/2, a/b, a+b)
"#;
    let expected = "8 0 24";
    assert!(interpret(code) == expected);
    assert!(get_compiler_res(code).is_ok());
}

#[test]
fn print_add_vars() {
    let code = r#"
let a = 1
let b = 1
print(a+b)
"#;
    let expected = "2";
    assert!(interpret(code) == expected);
    assert!(get_compiler_res(code).is_ok());
}

#[test]
fn adding_vars() {
    let code = r#"
let a = 1
let b = 1
let c = a + b
print(c, a + b)
"#;
    let expected = "2 2";
    assert!(interpret(code) == expected);
    assert!(get_compiler_res(code).is_ok());
}

#[test]
fn line_comments() {
    let code = r#"
print("a")
// print("b")
print("c")
"#;
    let expected = "a\nc";
    assert!(interpret(code) == expected);
    assert!(get_compiler_res(code).is_ok());
}

#[test]
fn inline_comments() {
    let code = r#"
print("a") // print("b")
"#;
    let expected = "a";
    assert!(interpret(code) == expected);
    assert!(get_compiler_res(code).is_ok());
}

#[test]
fn variable_redefinition() {
    let code = r#"
let a = 1
print(a)
let a = 2
print(a)
"#;
    let expected = "1\n2";
    assert!(interpret(code) == expected);
}

#[test]
fn variable_types() {
    let code = r#"
let int a = 1
let str b = "test"
print(a, b)
"#;
    let expected = "1 test";
    assert!(interpret(code) == expected);
    assert!(get_compiler_res(code).is_ok());
}

#[test]
fn err_unknown_func() {
    let code = r#"prnt("test")"#;
    let expected = ErrorType::Generic("Function `prnt` is not implemented".to_string());

    assert_error(get_compiler_res(code), &expected);
    assert_error(get_interpreter_res(code), &expected);
}

#[test]
fn err_variable_doesnt_exist() {
    let code = r#"print(a)"#;
    let expected = ErrorType::SyntaxError("Variable doesn't exist: `a`".to_string());

    assert_error(get_compiler_res(code), &expected);
    assert_error(get_interpreter_res(code), &expected);
}

#[test]
fn err_invalid_print_arg() {
    let code = r#"print(let a = 2)"#;
    let expected = ErrorType::Generic("Invalid argument to print".to_string());

    assert_error(get_compiler_res(code), &expected);
    assert_error(get_interpreter_res(code), &expected);
}

#[test]
fn err_add_not_num() {
    let code = r#"print(1+"")"#;
    let expected = ErrorType::Generic("Cannot add variable which is not a number".to_string());

    assert_error(get_compiler_res(code), &expected);
    assert_error(get_interpreter_res(code), &expected);
}

#[test]
fn err_invalid_expr_type() {
    let code = r#"1"#;
    let expected = ErrorType::Generic(
        "Expression `Number(1)` in this context is not yet implemented".to_string(),
    );

    assert_error(get_compiler_res(code), &expected);
    assert_error(get_interpreter_res(code), &expected);
}

#[test]
fn err_var_type_str_but_not_str() {
    let code = r#"let str a = 1"#;
    let expected = ErrorType::Generic("Variable type `str` does not match value type".to_string());

    assert_error(get_compiler_res(code), &expected);
    assert_error(get_interpreter_res(code), &expected);
}

#[test]
fn flat_precedence_left_to_right() {
    // all four operators share one precedence level: 1+2*3 groups as (1+2)*3
    let code = r#"print(1+2*3)"#;
    assert!(interpret(code) == "9");
}

#[test]
fn truncating_division_toward_zero() {
    // (0-7)/2 truncates to -3; Euclidean division would give -4
    let code = r#"print(0-7/2)"#;
    assert!(interpret(code) == "-3");
}

#[test]
fn division_by_zero_is_reported() {
    let code = r#"print(1/0)"#;
    let expected = ErrorType::Generic("Division by zero".to_string());
    assert_error(get_interpreter_res(code), &expected);
}

#[test]
fn wrapping_addition() {
    let code = r#"print(9223372036854775807+1)"#;
    assert!(interpret(code) == "-9223372036854775808");
}

#[test]
fn bool_literal_is_not_printable() {
    let code = r#"print(true)"#;
    let expected = ErrorType::Generic("Invalid argument to print".to_string());
    assert_error(get_interpreter_res(code), &expected);
    assert_error(get_compiler_res(code), &expected);
}

#[test]
fn err_store_func_call() {
    let code = r#"let a = foo()"#;
    let interp_expected =
        ErrorType::Generic("Can only store strings and number in variables".to_string());
    let compile_expected =
        ErrorType::Generic("Can only store strings and numbers in variables".to_string());
    assert_error(get_interpreter_res(code), &interp_expected);
    assert_error(get_compiler_res(code), &compile_expected);
}

#[test]
fn long_declares_numbers() {
    // `long`, like the other numeric types, accepts numbers and arithmetic
    let code = "let long a = 5\nlet long b = a*2\nprint(a, b)";
    assert!(interpret(code) == "5 10");
    assert!(get_compiler_res(code).is_ok());
}

#[test]
fn err_long_rejects_strings() {
    let code = r#"let long a = "s""#;
    let expected = ErrorType::Generic("Variable type `long` does not match value type".to_string());
    assert_error(get_interpreter_res(code), &expected);
    assert_error(get_compiler_res(code), &expected);
}

#[test]
fn bare_identifier_prints_in_interpreter() {
    let code = "let a = 5\na";
    assert!(interpret(code) == "5");
    let expected = ErrorType::Generic(
        "Expression `Identifier(\"a\")` in this context is not yet implemented".to_string(),
    );
    assert_error(get_compiler_res(code), &expected);
}

#[test]
fn nested_print_runs_in_interpreter() {
    // a nested call is evaluated for its output and contributes no value
    let code = r#"print("a", print("b"))"#;
    let mut out = String::new();
    {
        let code = preprocess(code);
        let tokens = lexer(&code).unwrap();
        let mut parser = Parser::new(tokens);
        let ast = parser.parse().unwrap();
        let mut interpreter = Interpreter::from_ast(ast);
        interpreter.run().unwrap();
        out.push_str(&interpreter.output);
    }
    assert_eq!(out, "a b\n\n");
    // the compiler does not lower nested calls as arguments
    let expected = ErrorType::Generic("Invalid argument to print".to_string());
    assert_error(get_compiler_res(code), &expected);
}

#[test]
fn compile_hello_world_ir() {
    // one outer counter value per argument, one more for the blob
    let ir = compile_ir(r#"print("hello")"#);
    let expected = "data $v2 = { b \"hello\", b 0 }\n\nexport function w $main() {\n@start\n  call $printf(l $v2)\n  call $printf(l $endl)\n  ret 0\n}";
    assert_eq!(ir, expected);
}

#[test]
fn compile_declarations_ir() {
    let ir = compile_ir("let a = 3\nlet b = a*2\nprint(b)");
    let expected = "data $a = { w 3 }\ndata $b = { w 0 }\n\nexport function w $main() {\n@start\n  %op1 =w loadw $a\n  %v3 =w mul %op1, 2\n  storew %v3, $b\n  %v4 =w loadw $b\n  call $printf(l $fmt_int, w %v4)\n  call $printf(l $endl)\n  ret 0\n}"
        .to_string();
    assert_eq!(ir, expected);
}

#[test]
fn compile_escapes_print_literals() {
    // a backslash in a printed literal is escaped in the emitted blob
    let ir = compile_ir("print(\"a\\b\")");
    assert!(ir.contains("data $v2 = { b \"a\\\\b\", b 0 }\n"));
}

#[test]
fn session_keeps_environment_across_runs() {
    // an interactive session reuses one interpreter, so bindings persist
    // from one input to the next
    let mut interpreter = Interpreter::default();

    let tokens = lexer(&preprocess("let a = 1")).unwrap();
    interpreter.ast = Parser::new(tokens).parse().unwrap();
    interpreter.run().unwrap();
    assert_eq!(interpreter.output, "");

    let tokens = lexer(&preprocess("print(a)")).unwrap();
    interpreter.ast = Parser::new(tokens).parse().unwrap();
    interpreter.run().unwrap();
    assert_eq!(interpreter.output, "1\n");
}

#[test]
fn empty_program_runs_and_compiles() {
    assert_eq!(interpret(""), "");
    let ir = compile_ir("");
    assert_eq!(ir, "\nexport function w $main() {\n@start\n  ret 0\n}");
}

#[test]
fn crlf_line_endings_are_accepted() {
    let code = "print(\"a\")\r\nprint(\"b\")\r\n";
    assert_eq!(interpret(code), "a\nb");
}
