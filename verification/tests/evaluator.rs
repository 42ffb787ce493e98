use lisp_interp::parser::{LispParseError, ParseResult, Parser, Reply};
use lisp_interp::scanner::{scan_tokens, Token};
use lisp_interp::value::{Operator, Value};

fn reduce(value: &Value) -> f64 {
    match value {
        Value::Zero => 0.0,
        Value::Literal(text) => text.parse::<f64>().unwrap(),
        Value::Negated(inner) => -reduce(inner),
        Value::Apply(op, left, right) => {
            let (a, b) = (reduce(left), reduce(right));
            match op {
                Operator::Addition => a + b,
                Operator::Subtraction => a - b,
                Operator::Multiplication => a * b,
                Operator::Division => a / b,
                Operator::Exponential => a.powf(b),
            }
        }
    }
}

fn run(parser: &mut Parser, line: &str) -> Reply {
    parser.evaluate(&scan_tokens(line))
}

fn number(reply: &Reply) -> f64 {
    match reply {
        Reply::Outcome(ParseResult::EvalUnary(value)) => reduce(value),
        other => panic!("no number: {:?}", other),
    }
}

fn error(e: LispParseError) -> Reply {
    Reply::Outcome(ParseResult::ParseError(e))
}

fn lit(s: &str) -> Value {
    Value::Literal(s.to_string())
}

#[test]
fn folds_operands_from_the_left() {
    let mut p = Parser::new();
    assert_eq!(number(&run(&mut p, "(+ 1 2 3)")), 6.0);
    assert_eq!(number(&run(&mut p, "(- 1 2 3)")), -4.0);
    assert_eq!(number(&run(&mut p, "(* 2 3 4)")), 24.0);
    assert_eq!(number(&run(&mut p, "(/ 8 2 2)")), 2.0);
    assert_eq!(number(&run(&mut p, "(^ 2 3)")), 8.0);
    assert_eq!(number(&run(&mut p, "(^ 2 3 2)")), 64.0);
}

#[test]
fn the_fold_is_the_exact_term() {
    let mut p = Parser::new();
    assert_eq!(
        run(&mut p, "(- 1 2 3)"),
        Reply::Outcome(ParseResult::EvalUnary(Value::apply(
            Operator::Subtraction,
            Value::apply(Operator::Subtraction, lit("1"), lit("2")),
            lit("3")
        )))
    );
}

#[test]
fn a_single_operand_is_unchanged() {
    let mut p = Parser::new();
    for op in ["+", "-", "*", "/", "^"] {
        assert_eq!(
            run(&mut p, &format!("({op} 7)")),
            Reply::Outcome(ParseResult::EvalUnary(lit("7")))
        );
    }
}

#[test]
fn operands_may_be_parentheses() {
    let mut p = Parser::new();
    assert_eq!(number(&run(&mut p, "(+ (* 2 3) (- 10 4))")), 12.0);
    assert_eq!(number(&run(&mut p, "(+ 1 (+ 2 (+ 3 4)))")), 10.0);
}

#[test]
fn a_minus_before_a_numeral_negates_it() {
    let mut p = Parser::new();
    assert_eq!(number(&run(&mut p, "(+ -5 3)")), -2.0);
    assert_eq!(number(&run(&mut p, "(- -5)")), -5.0);
    assert_eq!(run(&mut p, "(+ - x)"), error(LispParseError::InvalidArgument));
    assert_eq!(run(&mut p, "(+ -"), error(LispParseError::InvalidArgument));
}

#[test]
fn a_defined_variable_resolves_until_it_is_redefined() {
    let mut p = Parser::new();
    assert_eq!(
        run(&mut p, "(defvar x 5)"),
        Reply::Outcome(ParseResult::InsertedVar("x".to_string()))
    );
    assert_eq!(number(&run(&mut p, "(+ x 1)")), 6.0);
    assert_eq!(number(&run(&mut p, "(* x x)")), 25.0);
    assert_eq!(p.variable("x"), Some(lit("5")));
    run(&mut p, "(defvar x 7)");
    assert_eq!(number(&run(&mut p, "(+ x 1)")), 8.0);
    assert_eq!(p.variable_names(), vec!["x".to_string()]);
}

#[test]
fn a_variable_may_be_bound_to_a_parenthesis() {
    let mut p = Parser::new();
    assert_eq!(
        run(&mut p, "(defvar y (+ 1 2))"),
        Reply::Outcome(ParseResult::InsertedVar("y".to_string()))
    );
    assert_eq!(number(&run(&mut p, "(+ y)")), 3.0);
}

#[test]
fn defvar_errors() {
    let mut p = Parser::new();
    assert_eq!(run(&mut p, "(defvar)"), error(LispParseError::MissingSymbol));
    assert_eq!(run(&mut p, "(defvar"), error(LispParseError::MissingSymbol));
    assert_eq!(run(&mut p, "(defvar +)"), error(LispParseError::MissingSymbol));
    assert_eq!(run(&mut p, "(defvar 5 5)"), error(LispParseError::InvalidArgument));
    assert_eq!(run(&mut p, "(defvar x)"), error(LispParseError::InvalidArgument));
    assert_eq!(run(&mut p, "(defvar x"), error(LispParseError::InvalidArgument));
    assert_eq!(run(&mut p, "(defvar x y)"), error(LispParseError::InvalidArgument));
    assert!(p.variable_names().is_empty());
}

#[test]
fn an_error_in_the_value_of_a_variable_comes_back() {
    let mut p = Parser::new();
    assert_eq!(
        run(&mut p, "(defvar x (+ y 1))"),
        error(LispParseError::InvalidSymbol("y".to_string()))
    );
    assert_eq!(p.variable("x"), None);
}

#[test]
fn a_defined_function_is_called_by_substitution() {
    let mut p = Parser::new();
    assert_eq!(
        run(&mut p, "(defun inc n (+ n 1))"),
        Reply::Outcome(ParseResult::InsertedFunc("inc".to_string()))
    );
    assert_eq!(number(&run(&mut p, "(inc 4)")), 5.0);
    let f = p.function("inc").unwrap();
    assert_eq!(f.args, scan_tokens("n"));
    assert_eq!(f.expr, scan_tokens("(+ n 1)"));
}

#[test]
fn redefining_a_function_replaces_it() {
    let mut p = Parser::new();
    run(&mut p, "(defun inc n (+ n 1))");
    run(&mut p, "(defun inc a b (+ a b 2))");
    assert_eq!(number(&run(&mut p, "(inc 4 5)")), 11.0);
    let f = p.function("inc").unwrap();
    assert_eq!(f.args, scan_tokens("a b"));
    assert_eq!(f.expr, scan_tokens("(+ a b 2)"));
    assert_eq!(p.function_names(), vec!["inc".to_string()]);
}

#[test]
fn a_body_may_nest_parentheses_anywhere() {
    let mut p = Parser::new();
    assert_eq!(
        run(&mut p, "(defun f x (+ (* x 2) 1))"),
        Reply::Outcome(ParseResult::InsertedFunc("f".to_string()))
    );
    assert_eq!(number(&run(&mut p, "(f 5)")), 11.0);
    run(&mut p, "(defun g x (+ 1 (* x 2)))");
    assert_eq!(number(&run(&mut p, "(g 5)")), 11.0);
}

#[test]
fn free_symbols_resolve_when_the_function_is_called() {
    let mut p = Parser::new();
    run(&mut p, "(defun addk n (+ n k))");
    assert_eq!(
        run(&mut p, "(addk 1)"),
        error(LispParseError::InvalidSymbol("k".to_string()))
    );
    run(&mut p, "(defvar k 10)");
    assert_eq!(number(&run(&mut p, "(addk 1)")), 11.0);
    run(&mut p, "(defvar k 20)");
    assert_eq!(number(&run(&mut p, "(addk 1)")), 21.0);
}

#[test]
fn formals_and_actuals_are_matched_by_position() {
    let mut p = Parser::new();
    run(&mut p, "(defun f a b (- a b))");
    assert_eq!(number(&run(&mut p, "(f 10 3)")), 7.0);
    assert_eq!(number(&run(&mut p, "(f 10 3 99)")), 7.0);
    assert_eq!(
        run(&mut p, "(f 10)"),
        error(LispParseError::InvalidSymbol("b".to_string()))
    );
    // one formal after the other: the first actual is itself replaced by the second
    assert_eq!(number(&run(&mut p, "(f b 3)")), 0.0);
}

#[test]
fn an_operator_may_be_an_argument() {
    let mut p = Parser::new();
    run(&mut p, "(defun twice op x (op x x))");
    assert_eq!(number(&run(&mut p, "(twice * 4)")), 16.0);
    assert_eq!(number(&run(&mut p, "(twice + 4)")), 8.0);
}

#[test]
fn defun_errors() {
    let mut p = Parser::new();
    assert_eq!(run(&mut p, "(defun)"), error(LispParseError::MissingFunctionName));
    assert_eq!(run(&mut p, "(defun"), error(LispParseError::MissingFunctionName));
    assert_eq!(run(&mut p, "(defun 5 x (+ x 1))"), error(LispParseError::MissingFunctionName));
    assert_eq!(run(&mut p, "(defun f x)"), error(LispParseError::MissingRightParen));
    assert_eq!(run(&mut p, "(defun f x (+ x 1)"), error(LispParseError::MissingRightParen));
    assert_eq!(run(&mut p, "(defun f x (+ (* x 2) 1)"), error(LispParseError::MissingRightParen));
    assert!(p.function_names().is_empty());
}

#[test]
fn calling_an_unknown_function_fails() {
    let mut p = Parser::new();
    assert_eq!(
        run(&mut p, "(nope 1 2)"),
        error(LispParseError::InvalidFunction("nope".to_string()))
    );
}

#[test]
fn endless_recursion_is_stopped() {
    let mut p = Parser::new();
    run(&mut p, "(defun loop (loop))");
    assert_eq!(run(&mut p, "(loop)"), error(LispParseError::CallDepthExceeded));
    run(&mut p, "(defun deep (+ 1 (* 2 (- 3 (/ 4 (^ 5 (+ 6 (deep))))))))");
    assert_eq!(run(&mut p, "(deep)"), error(LispParseError::CallDepthExceeded));
    run(&mut p, "(defun ping (pong))");
    run(&mut p, "(defun pong (ping))");
    assert_eq!(run(&mut p, "(ping)"), error(LispParseError::CallDepthExceeded));
}

#[test]
fn dollar_shows_the_last_result() {
    let mut p = Parser::new();
    assert_eq!(
        run(&mut p, "$"),
        Reply::Outcome(ParseResult::InsertedFunc("nil".to_string()))
    );
    let sum = run(&mut p, "(+ 1 2)");
    assert_eq!(number(&sum), 3.0);
    assert_eq!(run(&mut p, "$"), sum);
    assert_eq!(run(&mut p, "$"), sum);
    run(&mut p, "(defvar x 5)");
    assert_eq!(
        run(&mut p, "$"),
        Reply::Outcome(ParseResult::InsertedVar("x".to_string()))
    );
    run(&mut p, "(defun f a (+ a 1))");
    assert_eq!(
        run(&mut p, "$"),
        Reply::Outcome(ParseResult::InsertedFunc("f".to_string()))
    );
    run(&mut p, "(+ y 1)");
    assert_eq!(
        run(&mut p, "$"),
        error(LispParseError::InvalidSymbol("y".to_string()))
    );
}

#[test]
fn dollar_is_an_operand() {
    let mut p = Parser::new();
    run(&mut p, "(+ 1 2)");
    assert_eq!(number(&run(&mut p, "(* $ 10)")), 30.0);
    run(&mut p, "(defvar x 5)");
    assert_eq!(run(&mut p, "(* $ 10)"), error(LispParseError::InvalidArgument));
    assert_eq!(run(&mut p, "(* $ 10)"), error(LispParseError::InvalidArgument));
    run(&mut p, "(+ y 1)");
    assert_eq!(
        run(&mut p, "(* $ 10)"),
        error(LispParseError::InvalidSymbol("y".to_string()))
    );
}

#[test]
fn an_unmatched_open_is_a_missing_right_paren() {
    let mut p = Parser::new();
    run(&mut p, "(defvar x 5)");
    run(&mut p, "(defun inc n (+ n 1))");
    assert_eq!(run(&mut p, "(+ 1 2"), error(LispParseError::MissingRightParen));
    assert_eq!(run(&mut p, "(+ 1 (* 2 3)"), error(LispParseError::MissingRightParen));
    assert_eq!(p.variable_names(), vec!["x".to_string()]);
    assert_eq!(p.variable("x"), Some(lit("5")));
    assert_eq!(p.function_names(), vec!["inc".to_string()]);
    assert_eq!(p.function("inc").unwrap().expr, scan_tokens("(+ n 1)"));
}

#[test]
fn an_undefined_symbol_is_invalid() {
    let mut p = Parser::new();
    assert_eq!(
        run(&mut p, "(+ y 1)"),
        error(LispParseError::InvalidSymbol("y".to_string()))
    );
    assert!(p.variable_names().is_empty());
    assert!(p.function_names().is_empty());
}

#[test]
fn an_open_parenthesis_alone_misses_its_operand() {
    let mut p = Parser::new();
    assert_eq!(run(&mut p, "("), error(LispParseError::MissingOperand));
    assert_eq!(run(&mut p, "(+ ("), error(LispParseError::MissingOperand));
}

#[test]
fn an_operator_without_operands_is_invalid() {
    let mut p = Parser::new();
    assert_eq!(run(&mut p, "(+)"), error(LispParseError::InvalidArgument));
    assert_eq!(run(&mut p, "(+"), error(LispParseError::InvalidArgument));
    assert_eq!(run(&mut p, "(+ 'a')"), error(LispParseError::InvalidArgument));
    assert_eq!(run(&mut p, "(+ defvar)"), error(LispParseError::InvalidArgument));
}

#[test]
fn other_lines_are_syntax_errors() {
    let mut p = Parser::new();
    assert_eq!(run(&mut p, ""), error(LispParseError::SyntaxError));
    assert_eq!(run(&mut p, "5"), error(LispParseError::SyntaxError));
    assert_eq!(run(&mut p, "x"), error(LispParseError::SyntaxError));
    assert_eq!(run(&mut p, ")"), error(LispParseError::SyntaxError));
    assert_eq!(run(&mut p, "+ 1 2"), error(LispParseError::SyntaxError));
    assert_eq!(run(&mut p, "$"), error(LispParseError::SyntaxError));
}

#[test]
fn ftab_asks_for_the_function_table() {
    let mut p = Parser::new();
    run(&mut p, "(+ 1 2)");
    assert_eq!(run(&mut p, "ftab"), Reply::FunctionTable);
    assert_eq!(number(&run(&mut p, "$")), 3.0);
}

#[test]
fn an_empty_parenthesis_leaves_the_register() {
    let mut p = Parser::new();
    run(&mut p, "(+ 1 2)");
    assert_eq!(number(&run(&mut p, "()")), 3.0);
    assert_eq!(number(&run(&mut p, "('a' 5 'b)")), 3.0);
}

#[test]
fn the_forms_of_a_parenthesis_are_carried_out_in_turn() {
    let mut p = Parser::new();
    assert_eq!(
        run(&mut p, "(defvar a 1 defvar b 2)"),
        Reply::Outcome(ParseResult::InsertedVar("b".to_string()))
    );
    assert_eq!(number(&run(&mut p, "(+ a b)")), 3.0);
}

#[test]
fn what_a_line_defined_stays_when_it_fails_later() {
    let mut p = Parser::new();
    assert_eq!(
        run(&mut p, "(defvar a 1 + zz)"),
        error(LispParseError::InvalidSymbol("zz".to_string()))
    );
    assert_eq!(p.variable("a"), Some(lit("1")));
}

#[test]
fn a_definition_may_end_with_the_line() {
    let mut p = Parser::new();
    // the flag that `defun` sets is taken back by the parenthesis that ends with the line
    assert_eq!(
        run(&mut p, "(defun f x (+ x 1)) 5 )"),
        Reply::Outcome(ParseResult::InsertedFunc("f".to_string()))
    );
    assert_eq!(number(&run(&mut p, "(+ 1 2")), 3.0);
    assert_eq!(run(&mut p, "(+ 1 2"), error(LispParseError::MissingRightParen));
}

#[test]
fn a_variable_may_be_defined_from_itself_many_times() {
    let mut p = Parser::new();
    run(&mut p, "(defvar x 1)");
    for _ in 0..200 {
        run(&mut p, "(defvar x (+ x x))");
    }
    // the term is 0 + (x + x) over the x before it, 200 times over, and the
    // two operands x share what is below them
    let mut levels = 0;
    let mut at = p.variable("x").unwrap();
    loop {
        at = match &at {
            Value::Literal(text) => {
                assert_eq!(text, "1");
                break;
            }
            Value::Apply(Operator::Addition, zero, sum) => {
                assert_eq!(**zero, Value::Zero);
                match &**sum {
                    Value::Apply(Operator::Addition, left, right) => {
                        match (&**left, &**right) {
                            (Value::Apply(_, _, a), Value::Apply(_, _, b)) => {
                                assert!(std::rc::Rc::ptr_eq(a, b))
                            }
                            (Value::Literal(a), Value::Literal(b)) => assert_eq!(a, b),
                            other => panic!("{:?}", other),
                        }
                        levels += 1;
                        (**right).clone()
                    }
                    other => panic!("{:?}", other),
                }
            }
            other => panic!("{:?}", other),
        };
    }
    assert_eq!(levels, 200);
}

#[test]
fn names_come_in_the_order_of_their_first_definition() {
    let mut p = Parser::new();
    run(&mut p, "(defvar b 1)");
    run(&mut p, "(defvar a 2)");
    run(&mut p, "(defvar c 3)");
    run(&mut p, "(defvar a 4)");
    assert_eq!(
        p.variable_names(),
        vec!["b".to_string(), "a".to_string(), "c".to_string()]
    );
    run(&mut p, "(defun g x (+ x 1))");
    run(&mut p, "(defun f x (+ x 2))");
    run(&mut p, "(defun g x (+ x 3))");
    assert_eq!(p.function_names(), vec!["g".to_string(), "f".to_string()]);
    assert_eq!(number(&run(&mut p, "(g a)")), 7.0);
}

#[test]
fn calls_may_nest_up_to_the_bound() {
    let mut p = Parser::new();
    run(&mut p, "(defun f0 x (+ x 1))");
    for i in 1..=100 {
        run(&mut p, &format!("(defun f{} x (f{} x))", i, i - 1));
    }
    // (f99 1) nests 100 calls, (f100 1) nests 101
    assert_eq!(number(&run(&mut p, "(f99 1)")), 2.0);
    assert_eq!(run(&mut p, "(f100 1)"), error(LispParseError::CallDepthExceeded));
    // `$` brings the error back without any call
    assert_eq!(run(&mut p, "(+ $ 1)"), error(LispParseError::CallDepthExceeded));
}
