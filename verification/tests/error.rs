use rlox::error::{push_decimal, ErrorReporter, LoxError};
use rlox::executer::{EvalExecuter, Executer};
use rlox::runner::{LoxRunner, Runner};

fn located(line: usize, where_: &str, message: &str) -> LoxError {
    LoxError::ParseError { line, where_: where_.to_string(), message: message.to_string() }
}

#[test]
fn errors_are_reported_by_their_text() {
    assert_eq!(LoxError::InvalidParameter.to_string(), "Invalid parameter");
    assert_eq!(LoxError::RuntimeError.to_string(), "Runtime error");
    assert_eq!(
        located(12, "at end", "Expect expression.").to_string(),
        "[line 12] Error at end: Expect expression."
    );
    assert_eq!(
        located(1, "", "Unexpected character.").to_string(),
        "[line 1] Error : Unexpected character."
    );
    assert_eq!(located(0, "at ')'", "x").to_string(), "[line 0] Error at ')': x");
    let io = std::io::Error::new(std::io::ErrorKind::Other, "disk on fire");
    let shown = format!("IO error: {}", io);
    assert_eq!(LoxError::IOError(io).to_string(), shown);
    assert_eq!(shown, "IO error: disk on fire");
}

#[test]
fn decimal_has_no_leading_zeros() {
    for n in [0usize, 7, 9, 10, 11, 99, 100, 101, 4096, 1234567890, usize::MAX] {
        let mut text = String::from("n=");
        push_decimal(&mut text, n);
        assert_eq!(text, format!("n={}", n));
    }
}

#[test]
fn runner_echoes_each_text_on_a_line() {
    let mut runner = LoxRunner::new();
    assert!(!runner.had_error());
    assert_eq!(runner.take_output(), "");
    assert!(runner.run(String::from("print 1;")).is_ok());
    assert!(runner.run(String::from("")).is_ok());
    assert!(runner.run(String::from("a\nb")).is_ok());
    assert_eq!(runner.take_output(), "print 1;\n\na\nb\n");
    assert_eq!(runner.take_output(), "");
    assert!(!runner.had_error());
}

#[test]
fn runner_absorbs_located_errors_only() {
    let mut runner = LoxRunner::new();
    assert!(matches!(runner.report(LoxError::RuntimeError), Err(LoxError::RuntimeError)));
    assert!(matches!(runner.report(LoxError::InvalidParameter), Err(LoxError::InvalidParameter)));
    assert!(!runner.had_error());
    assert_eq!(runner.take_output(), "");
    assert!(runner.run(String::from("x")).is_ok());
    assert!(runner.report(located(3, "at 'x'", "Expect expression.")).is_ok());
    assert!(runner.had_error());
    assert_eq!(runner.take_output(), "x\n[line 3] Error at 'x': Expect expression.");
    assert!(runner.had_error());
}

#[test]
fn executer_echoes_each_text_on_a_line() {
    let mut executer = EvalExecuter::new();
    assert!(!executer.had_error());
    assert!(executer.run(String::from("print 1;")).is_ok());
    assert_eq!(executer.take_output(), "print 1;\n");
    assert_eq!(executer.take_output(), "");
    assert!(matches!(executer.report(LoxError::RuntimeError), Err(LoxError::RuntimeError)));
    assert!(!executer.had_error());
    assert!(executer.report(located(1, "", "Unterminated string.")).is_ok());
    assert!(executer.had_error());
    assert_eq!(executer.take_output(), "[line 1] Error : Unterminated string.");
}
