//! Laws of evaluation, proved from its definition.

use crate::scanner::TokenView;
use crate::semantics::{
    add_form, apply, bind_function, bind_variable, body_end, done, eval_forms, eval_function,
    eval_parenthesis, eval_unary, evaluate, failed, get_value, operator_of, push_function,
    push_var, replace_token, run_end, substitute, ErrorView, FunctionView, Model, OutcomeView,
    ReplyView, CALL_DEPTH,
};
use crate::value::{Operator, Term};
use vstd::prelude::*;

verus! {

/// The token that names `op`.
pub open spec fn operator_token(op: Operator) -> TokenView {
    match op {
        Operator::Addition => TokenView::Plus,
        Operator::Subtraction => TokenView::Minus,
        Operator::Multiplication => TokenView::Asterisk,
        Operator::Division => TokenView::ForwardSlash,
        Operator::Exponential => TokenView::Carat,
    }
}

/// The number tokens of `numerals`.
pub open spec fn number_tokens(numerals: Seq<Seq<char>>) -> Seq<TokenView> {
    numerals.map_values(|numeral: Seq<char>| TokenView::Number(numeral))
}

/// The numbers that `numerals` denote.
pub open spec fn literals(numerals: Seq<Seq<char>>) -> Seq<Term> {
    numerals.map_values(|numeral: Seq<char>| Term::Literal(numeral))
}

/// `((first op rest[0]) op rest[1]) op ...`: the fold of `op` from the left
/// over `first` and then `rest`.
pub open spec fn fold_onto(op: Operator, first: Term, rest: Seq<Term>) -> Term
    decreases rest.len(),
{
    if rest.len() == 0 {
        first
    } else {
        fold_onto(op, apply(op, first, rest[0]), rest.drop_first())
    }
}

/// The fold of `op` from the left over `operands`, of which there is at
/// least one. A single operand is its own fold.
pub open spec fn fold(op: Operator, operands: Seq<Term>) -> Term {
    fold_onto(op, operands[0], operands.drop_first())
}

/// The line `(op n1 n2 ...)`.
pub open spec fn operator_form(op: Operator, numerals: Seq<Seq<char>>) -> Seq<TokenView> {
    seq![TokenView::LeftParen, operator_token(op)] + number_tokens(numerals)
        + seq![TokenView::RightParen]
}

/// The line `(op n1 n2 ...`, which no `)` closes.
pub open spec fn open_operator_form(op: Operator, numerals: Seq<Seq<char>>) -> Seq<TokenView> {
    seq![TokenView::LeftParen, operator_token(op)] + number_tokens(numerals)
}

/// `m` with `outcome` in the register.
pub open spec fn with_register(m: Model, outcome: OutcomeView) -> Model {
    Model { register: outcome, ..m }
}

/// Operands that are numerals, read from `pos` up to a `)` or the end of the
/// line, are folded from the left onto what was folded before them.
proof fn lemma_numeral_operands(
    ts: Seq<TokenView>,
    pos: int,
    m: Model,
    depth: nat,
    op: Operator,
    folded: Option<Term>,
    numerals: Seq<Seq<char>>,
)
    requires
        0 <= pos,
        pos + numerals.len() <= ts.len(),
        forall|i: int| 0 <= i < numerals.len() ==> ts[pos + i] == TokenView::Number(numerals[i]),
        pos + numerals.len() == ts.len() || ts[pos + numerals.len()] == TokenView::RightParen,
        folded is Some || numerals.len() >= 1,
    ensures
        ({
            let value = match folded {
                Some(first) => fold_onto(op, first, literals(numerals)),
                None => fold(op, literals(numerals)),
            };
            eval_unary(ts, pos, m, depth, op, folded) == done(
                with_register(m, OutcomeView::EvalUnary(value)),
                value,
                pos + numerals.len(),
            )
        }),
    decreases numerals.len(),
{
    if numerals.len() > 0 {
        let rest = numerals.drop_first();
        let value = Term::Literal(numerals[0]);
        let next = Some(
            match folded {
                Some(left) => apply(op, left, value),
                None => value,
            },
        );
        assert(ts[pos + 0] == TokenView::Number(numerals[0]));
        assert(get_value(ts, pos, m, depth) == done(m, value, pos + 1));
        assert forall|i: int| 0 <= i < rest.len() implies ts[pos + 1 + i] == TokenView::Number(
            rest[i],
        ) by {
            assert(ts[pos + (i + 1)] == TokenView::Number(numerals[i + 1]));
        }
        lemma_numeral_operands(ts, pos + 1, m, depth, op, next, rest);
        assert(literals(numerals).drop_first() =~= literals(rest));
        assert(literals(numerals)[0] == value);
    } else {
        assert(literals(numerals) =~= Seq::<Term>::empty());
    }
}

/// An operator form over numerals gives the fold of the operator from the
/// left over the numerals, in their order; a single numeral gives itself.
/// The fold goes to the register and is what the line shows; nothing else
/// changes.
pub proof fn lemma_operator_form_folds(m: Model, op: Operator, numerals: Seq<Seq<char>>)
    requires
        numerals.len() >= 1,
    ensures
        ({
            let value = OutcomeView::EvalUnary(fold(op, literals(numerals)));
            evaluate(operator_form(op, numerals), m) == (
                with_register(m, value),
                ReplyView::Outcome(value),
            )
        }),
        numerals.len() == 1 ==> fold(op, literals(numerals)) == Term::Literal(numerals[0]),
{
    let ts = operator_form(op, numerals);
    let depth = CALL_DEPTH as nat;
    let n = numerals.len() as int;
    assert(ts.len() == n + 3);
    assert(ts[0] == TokenView::LeftParen);
    assert(ts[1] == operator_token(op));
    assert(ts[n + 2] == TokenView::RightParen);
    assert forall|i: int| 0 <= i < n implies ts[2 + i] == TokenView::Number(numerals[i]) by {
        assert(number_tokens(numerals)[i] == TokenView::Number(numerals[i]));
    }
    lemma_numeral_operands(ts, 2, m, depth, op, None, numerals);
    let value = fold(op, literals(numerals));
    let after = with_register(m, OutcomeView::EvalUnary(value));
    assert(operator_of(ts[1]) == Some(op));
    assert(eval_forms(ts, 1, m, depth, Term::Zero) == eval_forms(
        ts,
        n + 2,
        after,
        depth,
        apply(Operator::Addition, Term::Zero, value),
    ));
    assert(eval_parenthesis(ts, 1, m, depth).state == after);
    if n == 1 {
        assert(literals(numerals).drop_first() =~= Seq::<Term>::empty());
    }
}

/// An operator form over numerals that no `)` closes is a
/// `MissingRightParen`, unless a function has just been defined. Both
/// tables stay as they are.
pub proof fn lemma_open_operator_form_fails(m: Model, op: Operator, numerals: Seq<Seq<char>>)
    requires
        numerals.len() >= 1,
        !m.fn_parsed,
    ensures
        ({
            let error = OutcomeView::ParseError(ErrorView::MissingRightParen);
            evaluate(open_operator_form(op, numerals), m) == (
                with_register(m, error),
                ReplyView::Outcome(error),
            )
        }),
{
    let ts = open_operator_form(op, numerals);
    let depth = CALL_DEPTH as nat;
    let n = numerals.len() as int;
    assert(ts.len() == n + 2);
    assert(ts[0] == TokenView::LeftParen);
    assert(ts[1] == operator_token(op));
    assert forall|i: int| 0 <= i < n implies ts[2 + i] == TokenView::Number(numerals[i]) by {
        assert(number_tokens(numerals)[i] == TokenView::Number(numerals[i]));
    }
    lemma_numeral_operands(ts, 2, m, depth, op, None, numerals);
    let value = fold(op, literals(numerals));
    let after = with_register(m, OutcomeView::EvalUnary(value));
    assert(operator_of(ts[1]) == Some(op));
    assert(eval_forms(ts, 1, m, depth, Term::Zero) == eval_forms(
        ts,
        n + 2,
        after,
        depth,
        apply(Operator::Addition, Term::Zero, value),
    ));
    assert(eval_parenthesis(ts, 1, m, depth) == failed(after, ErrorView::MissingRightParen));
}

/// An operator form whose first operand is a symbol that names no variable
/// is an `InvalidSymbol` with that name, whatever follows the symbol. Both
/// tables stay as they are.
pub proof fn lemma_undefined_operand_fails(
    m: Model,
    op: Operator,
    name: Seq<char>,
    rest: Seq<TokenView>,
)
    requires
        !m.variables.dom().contains(name),
    ensures
        ({
            let error = OutcomeView::ParseError(ErrorView::InvalidSymbol(name));
            evaluate(
                seq![TokenView::LeftParen, operator_token(op), TokenView::Symbol(name)] + rest,
                m,
            ) == (with_register(m, error), ReplyView::Outcome(error))
        }),
{
    let ts = seq![TokenView::LeftParen, operator_token(op), TokenView::Symbol(name)] + rest;
    let depth = CALL_DEPTH as nat;
    assert(ts[0] == TokenView::LeftParen);
    assert(ts[1] == operator_token(op));
    assert(ts[2] == TokenView::Symbol(name));
    assert(operator_of(ts[1]) == Some(op));
    assert(get_value(ts, 2, m, depth) == failed(m, ErrorView::InvalidSymbol(name)));
    assert(eval_unary(ts, 2, m, depth, op, None) == failed(m, ErrorView::InvalidSymbol(name)));
    assert(ts.len() == 3 + rest.len());
    assert(ts[1] != TokenView::RightParen);
    assert(eval_forms(ts, 1, m, depth, Term::Zero) == add_form(
        ts,
        1,
        depth,
        Term::Zero,
        eval_unary(ts, 2, m, depth, op, None),
    ));
    assert(eval_forms(ts, 1, m, depth, Term::Zero) == failed(m, ErrorView::InvalidSymbol(name)));
}

/// The line `(defvar name numeral)` binds the name to the number and shows
/// the name, as that of a variable.
pub proof fn lemma_defvar_binds(m: Model, name: Seq<char>, numeral: Seq<char>)
    ensures
        evaluate(
            seq![
                TokenView::LeftParen,
                TokenView::Defvar,
                TokenView::Symbol(name),
                TokenView::Number(numeral),
                TokenView::RightParen,
            ],
            m,
        ) == (
            bind_variable(m, name, Term::Literal(numeral)),
            ReplyView::Outcome(OutcomeView::InsertedVar(name)),
        ),
{
    let ts = seq![
        TokenView::LeftParen,
        TokenView::Defvar,
        TokenView::Symbol(name),
        TokenView::Number(numeral),
        TokenView::RightParen,
    ];
    let depth = CALL_DEPTH as nat;
    let value = Term::Literal(numeral);
    let bound = bind_variable(m, name, value);
    assert(push_var(ts, 2, m, depth) == done(bound, value, 4));
    assert(ts.len() == 5);
    assert(ts[1] == TokenView::Defvar);
    assert(ts[4] == TokenView::RightParen);
    assert(eval_forms(ts, 1, m, depth, Term::Zero) == add_form(
        ts,
        1,
        depth,
        Term::Zero,
        push_var(ts, 2, m, depth),
    ));
    assert(eval_forms(ts, 1, m, depth, Term::Zero) == eval_forms(
        ts,
        4,
        bound,
        depth,
        apply(Operator::Addition, Term::Zero, value),
    ));
}

/// A symbol that names a variable stands for the number that the variable
/// is bound to: the line `(op name)` shows that number, and changes nothing
/// but the register.
pub proof fn lemma_variable_resolves(m: Model, op: Operator, name: Seq<char>)
    requires
        m.variables.dom().contains(name),
    ensures
        ({
            let value = OutcomeView::EvalUnary(m.variables[name]);
            evaluate(
                seq![
                    TokenView::LeftParen,
                    operator_token(op),
                    TokenView::Symbol(name),
                    TokenView::RightParen,
                ],
                m,
            ) == (with_register(m, value), ReplyView::Outcome(value))
        }),
{
    let ts = seq![
        TokenView::LeftParen,
        operator_token(op),
        TokenView::Symbol(name),
        TokenView::RightParen,
    ];
    let depth = CALL_DEPTH as nat;
    let value = m.variables[name];
    let after = with_register(m, OutcomeView::EvalUnary(value));
    assert(operator_of(ts[1]) == Some(op));
    assert(get_value(ts, 2, m, depth) == done(m, value, 3));
    assert(eval_unary(ts, 3, m, depth, op, Some(value)) == done(after, value, 3));
    assert(eval_unary(ts, 2, m, depth, op, None) == done(after, value, 3));
    assert(ts.len() == 4);
    assert(ts[1] != TokenView::RightParen);
    assert(eval_forms(ts, 1, m, depth, Term::Zero) == add_form(
        ts,
        1,
        depth,
        Term::Zero,
        eval_unary(ts, 2, m, depth, op, None),
    ));
    assert(eval_forms(ts, 1, m, depth, Term::Zero) == eval_forms(
        ts,
        3,
        after,
        depth,
        apply(Operator::Addition, Term::Zero, value),
    ));
}

/// `$` shows again what the line before it has shown, and changes nothing:
/// after a line that gave a number, that number; after a definition, the
/// name that was defined; after a line that failed, its error.
pub proof fn lemma_dollar_repeats(m: Model, line: Seq<TokenView>, rest: Seq<TokenView>)
    requires
        evaluate(line, m).1 is Outcome,
    ensures
        evaluate(seq![TokenView::Dollar] + rest, evaluate(line, m).0) == evaluate(line, m),
{
    let after = evaluate(line, m).0;
    let ts = seq![TokenView::Dollar] + rest;
    assert(ts[0] == TokenView::Dollar);
    assert(evaluate(line, m).1 == ReplyView::Outcome(after.register));
}

/// A function definition that succeeds puts the new parameters and the new
/// body under the name, in place of what the name may have stood for, and
/// leaves every other function as it was.
pub proof fn lemma_definition_replaces(ts: Seq<TokenView>, pos: int, m: Model)
    requires
        push_function(ts, pos, m).1 is Ok,
    ensures
        ({
            let name = ts[pos]->Symbol_0;
            let after = push_function(ts, pos, m).0;
            let body_start = run_end(ts, pos + 1, TokenView::LeftParen);
            let end = push_function(ts, pos, m).1->Ok_0;
            &&& ts[pos] is Symbol
            &&& after.functions.dom() == m.functions.dom().insert(name)
            &&& after.functions[name] == FunctionView {
                args: ts.subrange(pos + 1, body_start),
                expr: ts.subrange(body_start, end - 1),
            }
            &&& forall|other: Seq<char>|
                other != name && m.functions.dom().contains(other) ==> after.functions[other]
                    == m.functions[other]
            &&& after.variables == m.variables
            &&& after.register == OutcomeView::InsertedFunc(name)
        }),
{
}

/// The line `(defun name params (inner))`, where `inner` holds no
/// parenthesis.
pub open spec fn definition_line(
    name: Seq<char>,
    params: Seq<TokenView>,
    inner: Seq<TokenView>,
) -> Seq<TokenView> {
    seq![TokenView::LeftParen, TokenView::Defun, TokenView::Symbol(name)] + params
        + flat_body(inner) + seq![TokenView::RightParen]
}

/// The body `(inner)`.
pub open spec fn flat_body(inner: Seq<TokenView>) -> Seq<TokenView> {
    seq![TokenView::LeftParen] + inner + seq![TokenView::RightParen]
}

/// `ts` holds no parenthesis.
pub open spec fn is_flat(ts: Seq<TokenView>) -> bool {
    forall|i: int|
        0 <= i < ts.len() ==> #[trigger] ts[i] != TokenView::LeftParen && ts[i]
            != TokenView::RightParen
}

proof fn lemma_run_end_is(ts: Seq<TokenView>, from: int, end: int, stop: TokenView)
    requires
        0 <= from <= end <= ts.len(),
        forall|i: int| from <= i < end ==> #[trigger] ts[i] != stop,
        end == ts.len() || ts[end] == stop,
    ensures
        run_end(ts, from, stop) == end,
    decreases end - from,
{
    if from < end {
        lemma_run_end_is(ts, from + 1, end, stop);
    }
}

proof fn lemma_body_end_skips(ts: Seq<TokenView>, from: int, to: int, depth: nat)
    requires
        0 <= from <= to <= ts.len(),
        forall|i: int|
            from <= i < to ==> #[trigger] ts[i] != TokenView::LeftParen && ts[i]
                != TokenView::RightParen,
    ensures
        body_end(ts, from, depth) == body_end(ts, to, depth),
    decreases to - from,
{
    if from < to {
        lemma_body_end_skips(ts, from + 1, to, depth);
    }
}

/// A function definition with a body of one parenthesis puts the
/// parameters and the body under the name, whether or not the name stood
/// for a function before, and shows the name. Every other function, and
/// every variable, stays as it is.
pub proof fn lemma_definition_line_defines(
    m: Model,
    name: Seq<char>,
    params: Seq<TokenView>,
    inner: Seq<TokenView>,
)
    requires
        forall|i: int| 0 <= i < params.len() ==> #[trigger] params[i] != TokenView::LeftParen,
        is_flat(inner),
    ensures
        evaluate(definition_line(name, params, inner), m) == (
            Model {
                fn_parsed: false,
                ..bind_function(
                    m,
                    name,
                    FunctionView { args: params, expr: flat_body(inner) },
                )
            },
            ReplyView::Outcome(OutcomeView::InsertedFunc(name)),
        ),
{
    let ts = definition_line(name, params, inner);
    let depth = CALL_DEPTH as nat;
    let p = params.len() as int;
    let n = inner.len() as int;
    let start = 3 + p;
    assert(ts.len() == p + n + 6);
    assert(ts[0] == TokenView::LeftParen);
    assert(ts[1] == TokenView::Defun);
    assert(ts[2] == TokenView::Symbol(name));
    assert forall|i: int| 0 <= i < p implies ts[3 + i] == params[i] by {}
    assert(ts[start] == TokenView::LeftParen);
    assert forall|i: int| 0 <= i < n implies ts[start + 1 + i] == inner[i] by {
        assert(flat_body(inner)[1 + i] == inner[i]);
        assert(ts[start + 1 + i] == flat_body(inner)[1 + i]);
    }
    assert(ts[start + n + 1] == TokenView::RightParen) by {
        assert(flat_body(inner)[n + 1] == TokenView::RightParen);
        assert(ts[start + n + 1] == flat_body(inner)[n + 1]);
    }
    assert(ts[start + n + 2] == TokenView::RightParen);
    assert forall|i: int| 3 <= i < start implies #[trigger] ts[i] != TokenView::LeftParen by {
        assert(ts[3 + (i - 3)] == params[i - 3]);
    }
    lemma_run_end_is(ts, 3, start, TokenView::LeftParen);
    assert forall|i: int| start + 1 <= i < start + 1 + n implies #[trigger] ts[i]
        != TokenView::LeftParen && ts[i] != TokenView::RightParen by {
        assert(ts[start + 1 + (i - start - 1)] == inner[i - start - 1]);
    }
    lemma_body_end_skips(ts, start + 1, start + 1 + n, 2);
    assert(body_end(ts, start, 1) == body_end(ts, start + 1, 2));
    assert(body_end(ts, start + n + 1, 2) == body_end(ts, start + n + 2, 1));
    assert(body_end(ts, start, 1) == Some(start + n + 3));
    assert(ts.subrange(3, start) =~= params);
    assert(ts.subrange(start, start + n + 2) =~= flat_body(inner));
    let function = FunctionView { args: params, expr: flat_body(inner) };
    let defined = bind_function(m, name, function);
    assert(push_function(ts, 2, m) == (defined, Ok::<int, ErrorView>(start + n + 3)));
    assert(eval_forms(ts, 1, m, depth, Term::Zero) == eval_forms(
        ts,
        start + n + 3,
        defined,
        depth,
        Term::Zero,
    ));
}

/// What stands in the body of a function of one parameter, as an operand:
/// the parameter (`None`) or a numeral.
pub open spec fn operand_token(parameter: Seq<char>, operand: Option<Seq<char>>) -> TokenView {
    match operand {
        Some(numeral) => TokenView::Number(numeral),
        None => TokenView::Symbol(parameter),
    }
}

/// The numeral that an operand is in a call with the argument `actual`.
pub open spec fn operand_numeral(actual: Seq<char>, operand: Option<Seq<char>>) -> Seq<char> {
    match operand {
        Some(numeral) => numeral,
        None => actual,
    }
}

/// The body `(op o1 o2 ...)` of a function with the parameter `parameter`.
pub open spec fn operator_body(
    op: Operator,
    parameter: Seq<char>,
    operands: Seq<Option<Seq<char>>>,
) -> Seq<TokenView> {
    seq![TokenView::LeftParen, operator_token(op)] + operands.map_values(
        |operand: Option<Seq<char>>| operand_token(parameter, operand),
    ) + seq![TokenView::RightParen]
}

/// A call puts the actual argument in the place of the formal parameter:
/// where `name` is a function of one parameter whose body is an operator
/// form over numerals and the parameter, the line `(name numeral)` shows
/// the fold of the operator over the operands, with the numeral of the
/// call wherever the parameter stands. Nothing changes but the register.
pub proof fn lemma_call_substitutes(
    m: Model,
    name: Seq<char>,
    parameter: Seq<char>,
    op: Operator,
    operands: Seq<Option<Seq<char>>>,
    actual: Seq<char>,
)
    requires
        operands.len() >= 1,
        m.functions.dom().contains(name),
        m.functions[name] == (FunctionView {
            args: seq![TokenView::Symbol(parameter)],
            expr: operator_body(op, parameter, operands),
        }),
    ensures
        ({
            let numerals = operands.map_values(
                |operand: Option<Seq<char>>| operand_numeral(actual, operand),
            );
            let value = OutcomeView::EvalUnary(fold(op, literals(numerals)));
            evaluate(
                seq![
                    TokenView::LeftParen,
                    TokenView::Symbol(name),
                    TokenView::Number(actual),
                    TokenView::RightParen,
                ],
                m,
            ) == (with_register(m, value), ReplyView::Outcome(value))
        }),
{
    let ts = seq![
        TokenView::LeftParen,
        TokenView::Symbol(name),
        TokenView::Number(actual),
        TokenView::RightParen,
    ];
    let depth = CALL_DEPTH as nat;
    let inner = (depth - 1) as nat;
    let n = operands.len() as int;
    let numerals = operands.map_values(
        |operand: Option<Seq<char>>| operand_numeral(actual, operand),
    );
    let fold_value = fold(op, literals(numerals));
    let after = with_register(m, OutcomeView::EvalUnary(fold_value));
    let expr = operator_body(op, parameter, operands);
    let formals = seq![TokenView::Symbol(parameter)];
    let actuals = seq![TokenView::Number(actual)];
    let body = operator_form(op, numerals);
    // the call
    assert(ts.len() == 4);
    assert(ts[1] == TokenView::Symbol(name));
    lemma_run_end_is(ts, 2, 3, TokenView::RightParen);
    assert(ts.subrange(2, 3) =~= actuals);
    // the substitution
    let replaced = replace_token(expr, formals[0], actuals[0]);
    assert(replaced =~= body) by {
        assert(expr.len() == n + 3);
        assert(body.len() == n + 3);
        assert(expr[0] == TokenView::LeftParen);
        assert(expr[1] == operator_token(op));
        assert(expr[n + 2] == TokenView::RightParen);
        assert forall|i: int| 0 <= i < n + 3 implies replaced[i] == body[i] by {
            if 2 <= i < n + 2 {
                assert(expr[i] == operand_token(parameter, operands[i - 2]));
                assert(body[i] == number_tokens(numerals)[i - 2]);
                assert(numerals[i - 2] == operand_numeral(actual, operands[i - 2]));
            } else if i == 0 {
                assert(body[0] == TokenView::LeftParen);
            } else if i == 1 {
                assert(body[1] == operator_token(op));
            } else {
                assert(body[n + 2] == TokenView::RightParen);
            }
        }
    }
    assert(substitute(replaced, formals.drop_first(), actuals.drop_first())
        == replaced);
    assert(substitute(expr, formals, actuals) == body);
    // the body
    assert(body[0] == TokenView::LeftParen);
    assert(body[1] == operator_token(op));
    assert(body[n + 2] == TokenView::RightParen);
    assert forall|i: int| 0 <= i < n implies body[2 + i] == TokenView::Number(numerals[i]) by {
        assert(number_tokens(numerals)[i] == TokenView::Number(numerals[i]));
    }
    lemma_numeral_operands(body, 2, m, inner, op, None, numerals);
    assert(operator_of(body[1]) == Some(op));
    let sum = apply(Operator::Addition, Term::Zero, fold_value);
    assert(eval_forms(body, 1, m, inner, Term::Zero) == add_form(
        body,
        1,
        inner,
        Term::Zero,
        eval_unary(body, 2, m, inner, op, None),
    ));
    assert(eval_forms(body, 1, m, inner, Term::Zero) == eval_forms(body, n + 2, after, inner, sum));
    assert(eval_forms(body, 0, m, inner, Term::Zero) == eval_forms(body, 1, m, inner, Term::Zero));
    assert(eval_parenthesis(body, 0, m, inner) == done(after, sum, n + 3));
    assert(eval_function(ts, 2, m, depth, name) == done(after, sum, 3));
    assert(eval_forms(ts, 1, m, depth, Term::Zero) == add_form(
        ts,
        1,
        depth,
        Term::Zero,
        eval_function(ts, 2, m, depth, name),
    ));
    assert(eval_forms(ts, 1, m, depth, Term::Zero) == eval_forms(
        ts,
        3,
        after,
        depth,
        apply(Operator::Addition, Term::Zero, sum),
    ));
}

} // verus!
