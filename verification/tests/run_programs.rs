use lox::environment::Environment;
use lox::interpreter::{Interpreter, RuntimeException};
use lox::parser::Parser;
use lox::scanner::Scanner;
use lox::token::{Token, TokenType};

fn run(source: &str) -> (Vec<String>, Option<RuntimeException>) {
    let mut scanner = Scanner::new(source.to_owned());
    scanner.scan_tokens();
    assert!(scanner.errors.is_empty(), "scan errors");
    let mut parser = Parser::new(scanner.tokens);
    let statements = parser.parse();
    assert!(parser.errors.is_empty(), "parse errors");
    let mut interpreter = Interpreter::new(0);
    let err = interpreter.interpret(&statements, 10_000_000);
    (interpreter.output, err)
}

fn run_ok(source: &str) -> Vec<String> {
    let (out, err) = run(source);
    assert!(err.is_none(), "unexpected runtime failure");
    out
}

fn runtime_message(source: &str) -> String {
    let (_, err) = run(source);
    match err {
        Some(RuntimeException::RuntimeError(e)) => e.message,
        _ => panic!("expected a runtime error"),
    }
}

#[test]
fn empty_program_prints_nothing() {
    assert_eq!(run_ok(""), Vec::<String>::new());
}

#[test]
fn print_nil() {
    assert_eq!(run_ok("print nil;"), vec!["nil".to_owned()]);
}

#[test]
fn division_by_zero_follows_ieee() {
    assert_eq!(
        run_ok("print 1/0; print -1/0; print 0/0;"),
        vec!["inf".to_owned(), "-inf".to_owned(), "nan".to_owned()]
    );
}

#[test]
fn plus_concatenates_strings_and_rejects_mixes() {
    assert_eq!(run_ok("print \"a\" + \"b\";"), vec!["ab".to_owned()]);
    assert_eq!(
        runtime_message("print 1 + \"a\";"),
        "Operands must be two numbers or two strings.".to_owned()
    );
}

#[test]
fn nil_equality() {
    assert_eq!(
        run_ok("print nil == nil; print nil == false;"),
        vec!["true".to_owned(), "false".to_owned()]
    );
}

#[test]
fn truthiness_of_strings_and_zero() {
    assert_eq!(
        run_ok("print !!\"anything\"; print !0;"),
        vec!["true".to_owned(), "false".to_owned()]
    );
}

#[test]
fn arithmetic_and_precedence() {
    assert_eq!(run_ok("print (1 + 2) * 3 - 4 / 2;"), vec!["7".to_owned()]);
}

#[test]
fn numbers_print_as_the_shortest_round_trip_decimal() {
    assert_eq!(
        run_ok("print 3.14; print 0.1; print 2.5 + 2.5; print 873.1834;"),
        vec!["3.14".to_owned(), "0.1".to_owned(), "5".to_owned(), "873.1834".to_owned()]
    );
    assert_eq!(run_ok("print -3.14; print -0.0;"), vec!["-3.14".to_owned(), "-0".to_owned()]);
}

#[test]
fn long_loops_run_to_completion() {
    assert_eq!(
        run_ok("var i = 0; while (i < 100000) { i = i + 1; } print i;"),
        vec!["100000".to_owned()]
    );
}

#[test]
fn block_scoping_shadows_and_restores() {
    assert_eq!(
        run_ok("var a = 1; { var a = 2; print a; } print a;"),
        vec!["2".to_owned(), "1".to_owned()]
    );
}

#[test]
fn short_circuit_returns_operand() {
    assert_eq!(
        run_ok("print nil or \"hi\"; print 1 and 2;"),
        vec!["hi".to_owned(), "2".to_owned()]
    );
}

#[test]
fn closures_capture_their_frame() {
    assert_eq!(
        run_ok(
            "fun mk() { var i = 0; fun tick() { i = i + 1; return i; } return tick; } \
             var t = mk(); print t(); print t(); print t();"
        ),
        vec!["1".to_owned(), "2".to_owned(), "3".to_owned()]
    );
}

#[test]
fn return_unwinds_to_the_call() {
    assert_eq!(
        run_ok("fun f() { if (true) { return 42; } return 0; } print f();"),
        vec!["42".to_owned()]
    );
}

#[test]
fn undefined_variable_is_a_runtime_error() {
    assert_eq!(runtime_message("print x;"), "Undefined variable 'x'.".to_owned());
}

#[test]
fn assignment_to_missing_name_fails_and_changes_nothing() {
    assert_eq!(
        runtime_message("var a = 1; y = 2; print a;"),
        "Undefined variable 'y'.".to_owned()
    );
    let (out, _) = run("var a = 1; y = 2; print a;");
    assert_eq!(out, Vec::<String>::new());
}

#[test]
fn while_and_for_loops_run() {
    assert_eq!(
        run_ok("var i = 0; while (i < 3) { print i; i = i + 1; }"),
        vec!["0".to_owned(), "1".to_owned(), "2".to_owned()]
    );
    assert_eq!(
        run_ok("for (var i = 0; i < 2; i = i + 1) print i;"),
        vec!["0".to_owned(), "1".to_owned()]
    );
}

#[test]
fn arity_mismatch_is_reported() {
    assert_eq!(
        runtime_message("fun f(a) { return a; } f();"),
        "Expected 1 arguments but got 0.".to_owned()
    );
}

#[test]
fn calling_a_number_is_an_error() {
    assert_eq!(
        runtime_message("var a = 3; a();"),
        "Can only call functions and classes.".to_owned()
    );
}

#[test]
fn native_clock_prints_and_calls() {
    assert_eq!(run_ok("print clock;"), vec!["<native fn>".to_owned()]);
    let mut scanner = Scanner::new("print clock();".to_owned());
    scanner.scan_tokens();
    let mut parser = Parser::new(scanner.tokens);
    let statements = parser.parse();
    let mut interpreter = Interpreter::new((12.0f64).to_bits());
    let err = interpreter.interpret(&statements, 1_000);
    assert!(err.is_none());
    assert_eq!(interpreter.output, vec!["12".to_owned()]);
}

#[test]
fn user_function_prints_with_its_name() {
    assert_eq!(run_ok("fun hey() {} print hey;"), vec!["<fn hey>".to_owned()]);
}

#[test]
fn eof_line_counts_newlines() {
    let mut scanner = Scanner::new("print 1;\nprint 2;\n".to_owned());
    scanner.scan_tokens();
    let last = &scanner.tokens[scanner.tokens.len() - 1];
    assert_eq!(last.token_type, TokenType::EOF);
    assert_eq!(last.line, 3);
    assert_eq!(last.lexeme, "".to_owned());
}

#[test]
fn scanner_reports_unexpected_characters_and_goes_on() {
    let mut scanner = Scanner::new("@\nprint 1;".to_owned());
    scanner.scan_tokens();
    assert_eq!(scanner.errors, vec!["[line 1] Error: Unexpected character: @.".to_owned()]);
    assert_eq!(scanner.tokens[0].token_type, TokenType::Print);
}

#[test]
fn unterminated_string_is_reported_at_its_last_line() {
    let mut scanner = Scanner::new("\"ab\nc".to_owned());
    scanner.scan_tokens();
    assert_eq!(scanner.errors, vec!["[line 2] Error: Unterminated string.".to_owned()]);
}

#[test]
fn strings_may_span_lines() {
    assert_eq!(run_ok("print \"a\nb\";"), vec!["a\nb".to_owned()]);
}

#[test]
fn parser_reports_and_recovers() {
    let mut scanner = Scanner::new("print ;\nprint 1;".to_owned());
    scanner.scan_tokens();
    let mut parser = Parser::new(scanner.tokens);
    let statements = parser.parse();
    assert_eq!(parser.errors, vec!["[line 1] Error at ';': Expect expression.".to_owned()]);
    assert_eq!(statements.len(), 1);
}

#[test]
fn invalid_assignment_target_is_reported() {
    let mut scanner = Scanner::new("1 = 2;".to_owned());
    scanner.scan_tokens();
    let mut parser = Parser::new(scanner.tokens);
    parser.parse();
    assert_eq!(
        parser.errors,
        vec!["[line 1] Error at '=': Invalid assignment target.".to_owned()]
    );
}

#[test]
fn define_get_and_redefine_in_one_frame() {
    let mut env = Environment::new();
    let x = Token::new(TokenType::Identifier, "x".to_owned(), None, 1);
    env.define(0, "x".to_owned(), Some(lox::token::LiteralType::Number((1.5f64).to_bits())));
    match env.get(0, &x) {
        Ok(Some(lox::token::LiteralType::Number(b))) => assert_eq!(f64::from_bits(b), 1.5),
        _ => panic!("expected the defined number"),
    }
    env.define(0, "x".to_owned(), Some(lox::token::LiteralType::Boolean(true)));
    match env.get(0, &x) {
        Ok(Some(lox::token::LiteralType::Boolean(b))) => assert!(b),
        _ => panic!("redefinition should overwrite"),
    }
}

#[test]
fn assign_without_slot_fails_and_leaves_frames_alone() {
    let mut env = Environment::new();
    let y = Token::new(TokenType::Identifier, "y".to_owned(), None, 3);
    let r = env.assign(0, &y, None);
    match r {
        Err(e) => {
            assert_eq!(e.message, "Undefined variable 'y'.".to_owned());
            assert_eq!(e.token.line, 3);
        },
        Ok(()) => panic!("assign must not create a slot"),
    }
    let r2 = env.get(0, &y);
    assert!(r2.is_err());
}

#[test]
fn diagnostics_format() {
    assert_eq!(
        lox::diag::error(7, "Unterminated string.".to_owned()),
        "[line 7] Error: Unterminated string.".to_owned()
    );
    let eof = Token::new(TokenType::EOF, "".to_owned(), None, 2);
    assert_eq!(
        lox::diag::error_token(&eof, "Expect expression.".to_owned()),
        "[line 2] Error at end: Expect expression.".to_owned()
    );
    assert_eq!(
        lox::diag::runtime_error(&"Operand must be a number.".to_owned(), 4),
        "Operand must be a number.\n[line 4]".to_owned()
    );
}

#[test]
fn number_comparisons() {
    assert_eq!(
        run_ok("print 1 < 2; print 2 <= 2; print 3 > 4; print 0 >= -0;"),
        vec!["true".to_owned(), "true".to_owned(), "false".to_owned(), "true".to_owned()]
    );
}

#[test]
fn single_expression_evaluation() {
    let mut scanner = Scanner::new("(2 + 3) * 4".to_owned());
    scanner.scan_tokens();
    let mut parser = Parser::new(scanner.tokens);
    let expr = parser.parse_expression().expect("expression should parse");
    let mut interpreter = Interpreter::new(0);
    match interpreter.interpret_expression(&expr, 1_000) {
        Ok(printed) => assert_eq!(printed, "20".to_owned()),
        Err(_) => panic!("should evaluate"),
    }
}

#[test]
fn out_of_fuel_is_distinct_from_errors() {
    let mut scanner = Scanner::new("var i = 0; while (true) { i = i + 1; }".to_owned());
    scanner.scan_tokens();
    let mut parser = Parser::new(scanner.tokens);
    let statements = parser.parse();
    let mut interpreter = Interpreter::new(0);
    let err = interpreter.interpret(&statements, 500);
    let out = interpreter.output;
    assert_eq!(out, Vec::<String>::new());
    match err {
        Some(RuntimeException::Exhausted) => {},
        _ => panic!("an endless loop should exhaust the step budget"),
    }
}
