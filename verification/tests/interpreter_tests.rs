use rlox::decimal::Decimal;
use rlox::interpreter::environment::{Environment, EnvironmentError};
use rlox::interpreter::error::RuntimeError;
use rlox::interpreter::Interpreter;
use rlox::lexer::token::{Token, TokenType};
use rlox::lexer::{Lexer, LexerError};
use rlox::parser::types::{Expr, Stmt, Value};
use rlox::parser::Parser;

fn num(mantissa: i128, scale: u32) -> Decimal {
    Decimal { mantissa, scale }
}

/// Lexes and parses one program; panics on any error.
fn program(src: &str) -> Vec<Stmt> {
    let tokens = Lexer::new(src)
        .scan_all_tokens()
        .into_iter()
        .collect::<Result<Vec<Token>, LexerError>>()
        .expect("source code should be valid");
    Parser::new(tokens).parse().expect("program should parse")
}

/// Runs one program on a fresh evaluator, returning its printed lines and
/// its runtime errors.
fn run(src: &str) -> (Vec<String>, Vec<RuntimeError>) {
    let mut interpreter = Interpreter::new();
    let errors = interpreter.interpret(program(src));
    (interpreter.take_output(), errors)
}

#[test]
fn evaluating_increment_prints_two() {
    let (output, errors) = run("var a = 1; a = a + 1; print a;");
    assert_eq!(output, ["2"]);
    assert!(errors.is_empty());
}

#[test]
fn redeclaring_in_same_block_errors_but_shadowing_does_not() {
    let (output, errors) = run("{ var a = 1; var a = 2; }");
    assert!(output.is_empty());
    assert_eq!(errors.len(), 1);
    assert!(matches!(
        &errors[0],
        RuntimeError::VariableAlreadyDefined { name, .. } if name == "a"
    ));

    let (output, errors) = run("{ var a = 1; { var a = 2; print a; } print a; }");
    assert_eq!(output, ["2", "1"]);
    assert!(errors.is_empty());
}

#[test]
fn number_plus_text_coerces_and_number_minus_text_fails() {
    let (output, errors) = run("print 1 + \"x\";");
    assert_eq!(output, ["1x"]);
    assert!(errors.is_empty());

    let (output, errors) = run("print 1 - \"x\";");
    assert!(output.is_empty());
    assert_eq!(errors.len(), 1);
    assert!(matches!(
        &errors[0],
        RuntimeError::InvalidOperands { expected, .. } if expected == "two numbers"
    ));
}

#[test]
fn desugared_for_loop_runs_as_a_while_loop() {
    let (output, errors) = run("for (var i = 0; i < 3; i = i + 1) print i;");
    assert_eq!(output, ["0", "1", "2"]);
    assert!(errors.is_empty());
}

#[test]
fn arithmetic_is_exact() {
    let (output, errors) = run("print 21 / 7; print 0.5 + 0.25; print 2.5 * 4; print 1 - 0.75;");
    assert_eq!(output, ["3", "0.75", "10", "0.25"]);
    assert!(errors.is_empty());

    let (output, errors) = run("print 0.50;");
    assert_eq!(output, ["0.5"]);
    assert!(errors.is_empty());
}

#[test]
fn division_by_zero_and_inexact_division_are_errors() {
    let (_, errors) = run("print 1 / 0;");
    assert_eq!(errors.len(), 1);
    assert!(matches!(
        &errors[0],
        RuntimeError::InvalidOperands { expected, .. } if expected == "a non-zero divisor"
    ));

    let (_, errors) = run("print 1 / 3;");
    assert_eq!(errors.len(), 1);
    assert!(matches!(
        &errors[0],
        RuntimeError::InvalidOperands { expected, .. } if expected == "a representable numeric result"
    ));
}

#[test]
fn comparisons_and_equality_follow_the_numeric_value() {
    let (output, errors) = run(
        "print 1 < 2; print 2 <= 2; print 3 > 4; print 0.5 == 0.50; print 1 != 2; print \"a\" == \"a\"; print nil == nil; print 1 == \"1\";",
    );
    assert_eq!(output, ["true", "true", "false", "true", "true", "true", "true", "false"]);
    assert!(errors.is_empty());
}

#[test]
fn unary_operators_negate_numbers_and_truthiness() {
    let (output, errors) = run("print -2; print !true; print !nil; print !0; print !\"x\";");
    assert_eq!(output, ["-2", "false", "true", "true", "false"]);
    assert!(errors.is_empty());

    let (_, errors) = run("print -\"x\";");
    assert_eq!(errors.len(), 1);
    assert!(matches!(&errors[0], RuntimeError::InvalidUnaryOperatorForValue { .. }));
}

#[test]
fn branches_follow_truthiness() {
    let (output, errors) = run("if (1 < 2) print \"yes\"; else print \"no\";");
    assert_eq!(output, ["yes"]);
    assert!(errors.is_empty());

    let (output, errors) = run("if (nil) print \"yes\"; else print \"no\";");
    assert_eq!(output, ["no"]);
    assert!(errors.is_empty());
}

#[test]
fn an_undefined_variable_is_an_error_and_later_statements_still_run() {
    let (output, errors) = run("print x; print 7;");
    assert_eq!(output, ["7"]);
    assert_eq!(errors.len(), 1);
    assert!(matches!(
        &errors[0],
        RuntimeError::UndefinedVariable { name, .. } if name == "x"
    ));
}

#[test]
fn global_state_persists_across_runs() {
    let mut interpreter = Interpreter::new();
    let errors = interpreter.interpret(program("var a = 1;"));
    assert!(errors.is_empty());
    let errors = interpreter.interpret(program("print a + 1;"));
    assert!(errors.is_empty());
    assert_eq!(interpreter.take_output(), ["2"]);
}

#[test]
fn rendering_literal_statements_round_trips_through_the_parser() {
    // The canonical rendering of compound forms is not source syntax, but a
    // rendered literal statement parses again, and both trees behave alike.
    for src in ["1;", "\"hi\";", "true;", "nil;", "0.5;"] {
        let first = program(src);
        let rendered = first[0].render();
        let second = program(&rendered);
        assert_eq!(first, second);

        let mut a = Interpreter::new();
        let errs_a = a.interpret(first);
        let mut b = Interpreter::new();
        let errs_b = b.interpret(second);
        assert_eq!(a.take_output(), b.take_output());
        assert_eq!(errs_a.len(), errs_b.len());
    }
}

#[test]
fn rendering_follows_the_canonical_shapes() {
    let stmts = program("1 + 2;");
    assert_eq!(stmts[0].render(), "(+ 1 2);");

    let stmts = program("print \"x\";");
    assert_eq!(stmts[0].render(), "(print \"x\");");

    let stmts = program("{ 1 + 2; }");
    assert_eq!(stmts[0].render(), "{ (+ 1 2);  }");

    let stmts = program("while (true) print 1;");
    assert_eq!(stmts[0].render(), "(While true is true => (print 1);)");
}

#[test]
fn environment_defines_shadows_and_assigns() {
    let mut env = Environment::new();
    assert_eq!(env.define("a".to_owned(), Value::Number(num(1, 0))), Ok(()));
    assert_eq!(
        env.define("a".to_owned(), Value::Number(num(2, 0))),
        Err(EnvironmentError::VariableAlreadyDefined("a".to_owned()))
    );
    assert_eq!(env.get(&"a".to_owned()), Ok(Value::Number(num(1, 0))));

    let mut env = Environment::new_with_enclosing(env);
    assert_eq!(env.define("a".to_owned(), Value::Number(num(2, 0))), Ok(()));
    assert_eq!(env.get(&"a".to_owned()), Ok(Value::Number(num(2, 0))));
    assert_eq!(env.assign("a".to_owned(), Value::Number(num(3, 0))), Ok(()));

    let popped = env.exit_current_scope().expect("a pushed scope can be exited");
    assert_eq!(popped.get(&"a".to_owned()), Ok(Value::Number(num(3, 0))));
    assert_eq!(env.get(&"a".to_owned()), Ok(Value::Number(num(1, 0))));
    assert_eq!(
        env.assign("b".to_owned(), Value::Nil),
        Err(EnvironmentError::UndefinedVariable("b".to_owned()))
    );
    assert!(matches!(env.exit_current_scope(), Err(EnvironmentError::ExitingGlobalScope)));
}

#[test]
fn assigning_to_a_non_variable_target_is_a_runtime_error() {
    // The parser never builds this shape; handed such a tree directly, the
    // evaluator reports the bad target.
    let stmt = Stmt::Expression(Expr::Assign {
        name: Token { token_type: TokenType::Plus, line: 1, col: 1 },
        value: Box::new(Expr::Literal { value: Value::Nil }),
    });
    let mut interpreter = Interpreter::new();
    let errors = interpreter.interpret(vec![stmt]);
    assert_eq!(errors.len(), 1);
    assert!(matches!(&errors[0], RuntimeError::InvalidAssignTarget(_)));
}

#[test]
fn values_know_their_kind_and_truthiness() {
    assert!(Value::Number(num(1, 0)).is_number());
    assert!(!Value::Nil.is_number());
    assert!(Value::all_is_number(&[Value::Number(num(1, 0)), Value::Number(num(5, 1))]));
    assert!(!Value::all_is_number(&[Value::Number(num(1, 0)), Value::Nil]));

    assert!(Value::Boolean(true).is_truthy());
    assert!(!Value::Boolean(false).is_truthy());
    assert!(!Value::Nil.is_truthy());
    assert!(!Value::Number(num(0, 0)).is_truthy());
    assert!(Value::Number(num(5, 1)).is_truthy());
    assert!(Value::Str(String::new()).is_truthy());

    assert_eq!(Value::Number(num(25, 1)).stringify(), "2.5");
    assert_eq!(Value::Number(num(-25, 1)).stringify(), "-2.5");
    assert_eq!(Value::Str("x".to_owned()).stringify(), "x");
    assert_eq!(Value::Nil.stringify(), "nil");
}

#[test]
fn runtime_error_messages_read_like_diagnostics() {
    let err = RuntimeError::UndefinedVariable { name: "x".to_owned(), line: 1, col: 7 };
    assert_eq!(err.message(), "undefined variable 'x'");

    let err = RuntimeError::VariableAlreadyDefined { name: "a".to_owned(), line: 2, col: 9 };
    assert_eq!(err.message(), "variable 'a' is already defined.");
}
