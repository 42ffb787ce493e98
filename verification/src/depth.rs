//! The bound on the nesting of calls shows in one error and in nothing
//! else.

use crate::frame::free_of;
use crate::scanner::TokenView;
use crate::semantics::{
    add_form, apply, eval_forms, eval_function, eval_parenthesis, eval_unary, evaluate,
    evaluate_within, get_value, operator_of, push_function, push_var, substitute, ErrorView,
    Model, OutcomeView, ReplyView, Step, CALL_DEPTH,
};
use crate::value::{Operator, Term};
use vstd::prelude::*;

verus! {

/// `step` stopped because calls nested too deeply.
pub open spec fn exceeded(step: Step) -> bool {
    step.result == Err::<(Term, int), ErrorView>(ErrorView::CallDepthExceeded)
}

proof fn lemma_deeper_parenthesis(ts: Seq<TokenView>, pos: int, m: Model, low: nat, high: nat)
    requires
        low <= high,
        !exceeded(eval_parenthesis(ts, pos, m, low)),
    ensures
        eval_parenthesis(ts, pos, m, high) == eval_parenthesis(ts, pos, m, low),
    decreases low, ts.len() - pos, 3int,
{
    if 0 <= pos < ts.len() {
        lemma_deeper_forms(ts, pos, m, low, high, Term::Zero);
    }
}

proof fn lemma_deeper_add(
    ts: Seq<TokenView>,
    pos: int,
    low: nat,
    high: nat,
    sum: Term,
    form: Step,
)
    requires
        low <= high,
        !exceeded(add_form(ts, pos, low, sum, form)),
    ensures
        add_form(ts, pos, high, sum, form) == add_form(ts, pos, low, sum, form),
    decreases low, ts.len() - pos, 1int,
{
    match form.result {
        Ok((value, next)) => {
            if pos < next <= ts.len() {
                lemma_deeper_forms(
                    ts,
                    next,
                    form.state,
                    low,
                    high,
                    apply(Operator::Addition, sum, value),
                );
            }
        },
        Err(_) => {},
    }
}

proof fn lemma_deeper_forms(
    ts: Seq<TokenView>,
    pos: int,
    m: Model,
    low: nat,
    high: nat,
    sum: Term,
)
    requires
        low <= high,
        !exceeded(eval_forms(ts, pos, m, low, sum)),
    ensures
        eval_forms(ts, pos, m, high, sum) == eval_forms(ts, pos, m, low, sum),
    decreases low, ts.len() - pos, 2int,
{
    if 0 <= pos < ts.len() && ts[pos] != TokenView::RightParen {
        if operator_of(ts[pos]) is Some {
            let op = operator_of(ts[pos])->0;
            let form = eval_unary(ts, pos + 1, m, low, op, None);
            assert(eval_forms(ts, pos, m, low, sum) == add_form(ts, pos, low, sum, form));
            lemma_deeper_unary(ts, pos + 1, m, low, high, op, None);
            lemma_deeper_add(ts, pos, low, high, sum, form);
        } else if ts[pos] == TokenView::Defvar {
            let form = push_var(ts, pos + 1, m, low);
            assert(eval_forms(ts, pos, m, low, sum) == add_form(ts, pos, low, sum, form));
            lemma_deeper_var(ts, pos + 1, m, low, high);
            lemma_deeper_add(ts, pos, low, high, sum, form);
        } else if ts[pos] == TokenView::Defun {
            let defined = push_function(ts, pos + 1, m);
            match defined.1 {
                Ok(next) => {
                    if pos < next <= ts.len() {
                        lemma_deeper_forms(ts, next, defined.0, low, high, sum);
                    }
                },
                Err(_) => {},
            }
        } else if ts[pos] is Symbol {
            let name = ts[pos]->Symbol_0;
            let form = eval_function(ts, pos + 1, m, low, name);
            assert(eval_forms(ts, pos, m, low, sum) == add_form(ts, pos, low, sum, form));
            lemma_deeper_function(ts, pos + 1, m, low, high, name);
            lemma_deeper_add(ts, pos, low, high, sum, form);
        } else {
            lemma_deeper_forms(ts, pos + 1, m, low, high, sum);
        }
    }
}

proof fn lemma_deeper_unary(
    ts: Seq<TokenView>,
    pos: int,
    m: Model,
    low: nat,
    high: nat,
    op: Operator,
    folded: Option<Term>,
)
    requires
        low <= high,
        !exceeded(eval_unary(ts, pos, m, low, op, folded)),
    ensures
        eval_unary(ts, pos, m, high, op, folded) == eval_unary(ts, pos, m, low, op, folded),
    decreases low, ts.len() - pos, 1int,
{
    if 0 <= pos < ts.len() && ts[pos] != TokenView::RightParen {
        let operand = get_value(ts, pos, m, low);
        lemma_deeper_value(ts, pos, m, low, high);
        match operand.result {
            Ok((value, next)) => {
                if pos < next <= ts.len() {
                    lemma_deeper_unary(
                        ts,
                        next,
                        operand.state,
                        low,
                        high,
                        op,
                        Some(
                            match folded {
                                Some(left) => apply(op, left, value),
                                None => value,
                            },
                        ),
                    );
                }
            },
            Err(_) => {},
        }
    }
}

proof fn lemma_deeper_value(ts: Seq<TokenView>, pos: int, m: Model, low: nat, high: nat)
    requires
        low <= high,
        !exceeded(get_value(ts, pos, m, low)),
    ensures
        get_value(ts, pos, m, high) == get_value(ts, pos, m, low),
    decreases low, ts.len() - pos, 0int,
{
    if 0 <= pos < ts.len() && ts[pos] == TokenView::LeftParen {
        lemma_deeper_parenthesis(ts, pos + 1, m, low, high);
    }
}

proof fn lemma_deeper_var(ts: Seq<TokenView>, pos: int, m: Model, low: nat, high: nat)
    requires
        low <= high,
        !exceeded(push_var(ts, pos, m, low)),
    ensures
        push_var(ts, pos, m, high) == push_var(ts, pos, m, low),
    decreases low, ts.len() - pos, 0int,
{
    if 0 <= pos && pos + 1 < ts.len() && ts[pos] is Symbol && ts[pos + 1]
        == TokenView::LeftParen {
        lemma_deeper_parenthesis(ts, pos + 2, m, low, high);
    }
}

proof fn lemma_deeper_function(
    ts: Seq<TokenView>,
    pos: int,
    m: Model,
    low: nat,
    high: nat,
    name: Seq<char>,
)
    requires
        low <= high,
        !exceeded(eval_function(ts, pos, m, low, name)),
    ensures
        eval_function(ts, pos, m, high, name) == eval_function(ts, pos, m, low, name),
    decreases low, ts.len() - pos, 0int,
{
    if m.functions.dom().contains(name) {
        let args_end = crate::semantics::run_end(ts, pos, TokenView::RightParen);
        let function = m.functions[name];
        let body = substitute(function.expr, function.args, ts.subrange(pos, args_end));
        lemma_deeper_parenthesis(body, 0, m, (low - 1) as nat, (high - 1) as nat);
    }
}

/// The bound on the nesting of calls shows in nothing but its error: a
/// line that does not end in `CallDepthExceeded` under one bound leaves the
/// same state and shows the same under every greater bound. So where a
/// line does end in that error, no smaller bound would have let it pass.
pub proof fn lemma_greater_bound_gives_the_same(
    line: Seq<TokenView>,
    m: Model,
    low: nat,
    high: nat,
)
    requires
        low <= high,
        evaluate_within(line, m, low).1 != ReplyView::Outcome(
            OutcomeView::ParseError(ErrorView::CallDepthExceeded),
        ),
    ensures
        evaluate_within(line, m, high) == evaluate_within(line, m, low),
{
    if line.len() > 0 && line[0] == TokenView::LeftParen {
        lemma_deeper_parenthesis(line, 1, m, low, high);
    }
}

/// A line that ends in `CallDepthExceeded` under one bound ends in it under
/// every smaller bound: its calls nest too deeply for each of them.
pub proof fn lemma_smaller_bound_is_exceeded_too(
    line: Seq<TokenView>,
    m: Model,
    low: nat,
    high: nat,
)
    requires
        low <= high,
        evaluate_within(line, m, high).1 == ReplyView::Outcome(
            OutcomeView::ParseError(ErrorView::CallDepthExceeded),
        ),
    ensures
        evaluate_within(line, m, low).1 == ReplyView::Outcome(
            OutcomeView::ParseError(ErrorView::CallDepthExceeded),
        ),
{
    if evaluate_within(line, m, low).1 != ReplyView::Outcome(
        OutcomeView::ParseError(ErrorView::CallDepthExceeded),
    ) {
        lemma_greater_bound_gives_the_same(line, m, low, high);
    }
}

/// `m` holds no function, and its register does not hold the error of a
/// call that nested too deeply.
pub open spec fn calls_nothing(m: Model) -> bool {
    &&& forall|name: Seq<char>| !m.functions.dom().contains(name)
    &&& m.register != OutcomeView::ParseError(ErrorView::CallDepthExceeded)
}

proof fn lemma_idle_add(
    ts: Seq<TokenView>,
    pos: int,
    depth: nat,
    sum: Term,
    form: Step,
)
    requires
        free_of(ts, TokenView::Defun),
        calls_nothing(form.state),
        !exceeded(form),
    ensures
        calls_nothing(add_form(ts, pos, depth, sum, form).state),
        !exceeded(add_form(ts, pos, depth, sum, form)),
    decreases ts.len() - pos, 1int,
{
    match form.result {
        Ok((value, next)) => {
            if pos < next <= ts.len() {
                lemma_idle_forms(
                    ts,
                    next,
                    form.state,
                    depth,
                    apply(Operator::Addition, sum, value),
                );
            }
        },
        Err(_) => {},
    }
}

proof fn lemma_idle_forms(ts: Seq<TokenView>, pos: int, m: Model, depth: nat, sum: Term)
    requires
        free_of(ts, TokenView::Defun),
        calls_nothing(m),
    ensures
        calls_nothing(eval_forms(ts, pos, m, depth, sum).state),
        !exceeded(eval_forms(ts, pos, m, depth, sum)),
    decreases ts.len() - pos, 2int,
{
    if 0 <= pos < ts.len() && ts[pos] != TokenView::RightParen {
        if operator_of(ts[pos]) is Some {
            let op = operator_of(ts[pos])->0;
            lemma_idle_unary(ts, pos + 1, m, depth, op, None);
            lemma_idle_add(ts, pos, depth, sum, eval_unary(ts, pos + 1, m, depth, op, None));
        } else if ts[pos] == TokenView::Defvar {
            lemma_idle_var(ts, pos + 1, m, depth);
            lemma_idle_add(ts, pos, depth, sum, push_var(ts, pos + 1, m, depth));
        } else if ts[pos] is Symbol {
            lemma_idle_add(
                ts,
                pos,
                depth,
                sum,
                eval_function(ts, pos + 1, m, depth, ts[pos]->Symbol_0),
            );
        } else {
            lemma_idle_forms(ts, pos + 1, m, depth, sum);
        }
    }
}

proof fn lemma_idle_unary(
    ts: Seq<TokenView>,
    pos: int,
    m: Model,
    depth: nat,
    op: Operator,
    folded: Option<Term>,
)
    requires
        free_of(ts, TokenView::Defun),
        calls_nothing(m),
    ensures
        calls_nothing(eval_unary(ts, pos, m, depth, op, folded).state),
        !exceeded(eval_unary(ts, pos, m, depth, op, folded)),
    decreases ts.len() - pos, 1int,
{
    if 0 <= pos < ts.len() && ts[pos] != TokenView::RightParen {
        lemma_idle_value(ts, pos, m, depth);
        let operand = get_value(ts, pos, m, depth);
        match operand.result {
            Ok((value, next)) => {
                if pos < next <= ts.len() {
                    lemma_idle_unary(
                        ts,
                        next,
                        operand.state,
                        depth,
                        op,
                        Some(
                            match folded {
                                Some(left) => apply(op, left, value),
                                None => value,
                            },
                        ),
                    );
                }
            },
            Err(_) => {},
        }
    }
}

proof fn lemma_idle_value(ts: Seq<TokenView>, pos: int, m: Model, depth: nat)
    requires
        free_of(ts, TokenView::Defun),
        calls_nothing(m),
    ensures
        calls_nothing(get_value(ts, pos, m, depth).state),
        !exceeded(get_value(ts, pos, m, depth)),
    decreases ts.len() - pos, 0int,
{
    if 0 <= pos < ts.len() && ts[pos] == TokenView::LeftParen && pos + 1 < ts.len() {
        lemma_idle_forms(ts, pos + 1, m, depth, Term::Zero);
    }
}

proof fn lemma_idle_var(ts: Seq<TokenView>, pos: int, m: Model, depth: nat)
    requires
        free_of(ts, TokenView::Defun),
        calls_nothing(m),
    ensures
        calls_nothing(push_var(ts, pos, m, depth).state),
        !exceeded(push_var(ts, pos, m, depth)),
    decreases ts.len() - pos, 0int,
{
    if 0 <= pos && pos + 2 < ts.len() && ts[pos] is Symbol && ts[pos + 1]
        == TokenView::LeftParen {
        lemma_idle_forms(ts, pos + 2, m, depth, Term::Zero);
    }
}

/// `CallDepthExceeded` comes from calls alone: where no function is
/// defined and the line defines none, no line ends in it, whatever the
/// bound, unless the register already held it and `$` brought it back.
pub proof fn lemma_no_function_no_call_depth_error(line: Seq<TokenView>, m: Model, depth: nat)
    requires
        free_of(line, TokenView::Defun),
        calls_nothing(m),
    ensures
        evaluate_within(line, m, depth).1 != ReplyView::Outcome(
            OutcomeView::ParseError(ErrorView::CallDepthExceeded),
        ),
        evaluate_within(line, m, depth).0.register != OutcomeView::ParseError(
            ErrorView::CallDepthExceeded,
        ),
{
    if line.len() > 1 && line[0] == TokenView::LeftParen {
        lemma_idle_forms(line, 1, m, depth, Term::Zero);
    }
}

/// A line that [`evaluate`] does not end in `CallDepthExceeded` is not
/// touched by the bound: it gives what it would give with any greater one.
pub proof fn lemma_call_depth_only_stops(line: Seq<TokenView>, m: Model, depth: nat)
    requires
        depth >= CALL_DEPTH,
        evaluate(line, m).1 != ReplyView::Outcome(
            OutcomeView::ParseError(ErrorView::CallDepthExceeded),
        ),
    ensures
        evaluate_within(line, m, depth) == evaluate(line, m),
{
    lemma_greater_bound_gives_the_same(line, m, CALL_DEPTH as nat, depth);
}

} // verus!
