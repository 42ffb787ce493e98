use lisp_interp::parser::{LispParseError, ParseResult, Parser, Reply};
use lisp_interp::scanner::{render_line, scan_tokens, Token};
use lisp_interp::value::Value;

#[test]
fn a_line_is_its_tokens_with_spaces_between() {
    assert_eq!(render_line(&scan_tokens("(+ 1 2)")), "( + 1 2 )");
    assert_eq!(render_line(&scan_tokens("x")), "x");
    assert_eq!(render_line(&Vec::new()), "");
    assert_eq!(
        render_line(&vec![Token::String("a b".to_string()), Token::Tick, Token::Dollar]),
        "'a b' ' $"
    );
}

#[test]
fn a_function_shows_its_parameters_and_its_body() {
    let mut p = Parser::new();
    p.evaluate(&scan_tokens("(defun inc n (+ n 1))"));
    assert_eq!(p.function("inc").unwrap().render(), "Args: n\nBody:( + n 1 )");
    p.evaluate(&scan_tokens("(defun k (+ 1 2))"));
    assert_eq!(p.function("k").unwrap().render(), "Args: \nBody:( + 1 2 )");
    p.evaluate(&scan_tokens("(defun f a b (* a (- b 1.5)))"));
    assert_eq!(
        p.function("f").unwrap().render(),
        "Args: a b\nBody:( * a ( - b 1.5 ) )"
    );
}

#[test]
fn an_error_shows_the_name_of_its_kind() {
    let all = [
        LispParseError::MissingOperand,
        LispParseError::InvalidSymbol("y".to_string()),
        LispParseError::InvalidArgument,
        LispParseError::MissingSymbol,
        LispParseError::InvalidFunction("f".to_string()),
        LispParseError::MissingRightParen,
        LispParseError::MissingFunctionName,
        LispParseError::SyntaxError,
        LispParseError::CallDepthExceeded,
        LispParseError::InvalidSymbol("a\"b\\c\n".to_string()),
        LispParseError::InvalidFunction("\u{e9}\t'".to_string()),
    ];
    for e in all.iter() {
        assert_eq!(e.render(), format!("{:?}", e));
    }
    assert_eq!(LispParseError::MissingOperand.render(), "MissingOperand");
    assert_eq!(
        LispParseError::InvalidSymbol("y".to_string()).render(),
        "InvalidSymbol(\"y\")"
    );
    assert_eq!(
        LispParseError::InvalidFunction("a\"b".to_string()).render(),
        "InvalidFunction(\"a\\\"b\")"
    );
}

#[test]
fn an_outcome_shows_a_name_or_an_error() {
    assert_eq!(
        ParseResult::InsertedFunc("nil".to_string()).render(),
        Some("nil".to_string())
    );
    assert_eq!(
        ParseResult::InsertedVar("x".to_string()).render(),
        Some("'x".to_string())
    );
    assert_eq!(
        ParseResult::ParseError(LispParseError::SyntaxError).render(),
        Some("parse error: SyntaxError".to_string())
    );
    assert_eq!(
        ParseResult::ParseError(LispParseError::InvalidSymbol("y".to_string())).render(),
        Some("parse error: InvalidSymbol(\"y\")".to_string())
    );
    assert_eq!(ParseResult::EvalUnary(Value::Zero).render(), None);
}

#[test]
fn the_register_is_what_a_line_shows() {
    let mut p = Parser::new();
    assert_eq!(p.last_result().render(), Some("nil".to_string()));
    let reply = p.evaluate(&scan_tokens("(defvar x 5)"));
    assert_eq!(reply, Reply::Outcome(p.last_result().clone()));
    assert_eq!(p.last_result().render(), Some("'x".to_string()));
    let reply = p.evaluate(&scan_tokens("(+ y 1)"));
    assert_eq!(reply, Reply::Outcome(p.last_result().clone()));
    assert_eq!(
        p.last_result().render(),
        Some("parse error: InvalidSymbol(\"y\")".to_string())
    );
}
