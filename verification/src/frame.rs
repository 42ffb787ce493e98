//! What a line leaves as it is: the tables change by definitions only.

use crate::scanner::TokenView;
use crate::semantics::{
    add_form, apply, body_end, eval_forms, eval_function, eval_parenthesis, eval_unary, evaluate,
    get_value, operator_of, push_function, push_var, replace_token, run_end, substitute, Model,
    Step, CALL_DEPTH,
};
use crate::value::{Operator, Term};
use vstd::prelude::*;

verus! {

/// `keyword` does not stand among `ts`.
pub open spec fn free_of(ts: Seq<TokenView>, keyword: TokenView) -> bool {
    forall|i: int| 0 <= i < ts.len() ==> #[trigger] ts[i] != keyword
}

/// `keyword` stands in the body of no function of `m`.
pub open spec fn bodies_free_of(m: Model, keyword: TokenView) -> bool {
    forall|name: Seq<char>| #[trigger]
        m.functions.dom().contains(name) ==> free_of(m.functions[name].expr, keyword)
}

/// Every variable and every function of `before` is still defined in
/// `after`, and the names of `before` are the first names of `after`, in
/// the same order.
pub open spec fn keeps_names(before: Model, after: Model) -> bool {
    &&& before.variables.dom().subset_of(after.variables.dom())
    &&& before.functions.dom().subset_of(after.functions.dom())
    &&& before.variable_names.is_prefix_of(after.variable_names)
    &&& before.function_names.is_prefix_of(after.function_names)
}

/// `before` and `after` are the two ends of a piece of evaluation over
/// `ts`: no name was lost; the variables are the same if no `defvar` could
/// be met; the functions are the same if no `defun` could, and then no
/// function has just been defined at the end unless one had at the
/// beginning.
pub open spec fn framed(ts: Seq<TokenView>, before: Model, after: Model) -> bool {
    &&& keeps_names(before, after)
    &&& free_of(ts, TokenView::Defvar) && bodies_free_of(before, TokenView::Defvar) ==> {
        &&& after.variables == before.variables
        &&& after.variable_names == before.variable_names
        &&& bodies_free_of(after, TokenView::Defvar)
    }
    &&& free_of(ts, TokenView::Defun) && bodies_free_of(before, TokenView::Defun) ==> {
        &&& after.functions == before.functions
        &&& after.function_names == before.function_names
        &&& after.fn_parsed ==> before.fn_parsed
    }
}

proof fn lemma_substitute_free_of(
    body: Seq<TokenView>,
    formals: Seq<TokenView>,
    actuals: Seq<TokenView>,
    keyword: TokenView,
)
    requires
        free_of(body, keyword),
        free_of(actuals, keyword),
    ensures
        free_of(substitute(body, formals, actuals), keyword),
    decreases formals.len(),
{
    if formals.len() > 0 && actuals.len() > 0 {
        let replaced = replace_token(body, formals[0], actuals[0]);
        assert forall|i: int| 0 <= i < replaced.len() implies #[trigger] replaced[i]
            != keyword by {
            assert(body[i] != keyword);
            assert(actuals[0] != keyword);
        }
        let rest = actuals.drop_first();
        assert forall|i: int| 0 <= i < rest.len() implies #[trigger] rest[i] != keyword by {
            assert(rest[i] == actuals[i + 1]);
        }
        lemma_substitute_free_of(replaced, formals.drop_first(), rest, keyword);
    }
}

proof fn lemma_run_end_bounds(ts: Seq<TokenView>, from: int, stop: TokenView)
    requires
        0 <= from <= ts.len(),
    ensures
        from <= run_end(ts, from, stop) <= ts.len(),
    decreases ts.len() - from,
{
    if from < ts.len() && ts[from] != stop {
        lemma_run_end_bounds(ts, from + 1, stop);
    }
}

proof fn lemma_frame_parenthesis(ts: Seq<TokenView>, pos: int, m: Model, depth: nat)
    ensures
        framed(ts, m, eval_parenthesis(ts, pos, m, depth).state),
    decreases depth, ts.len() - pos, 3int,
{
    if 0 <= pos < ts.len() {
        lemma_frame_forms(ts, pos, m, depth, Term::Zero);
    }
}

proof fn lemma_frame_add(
    ts: Seq<TokenView>,
    pos: int,
    m: Model,
    depth: nat,
    sum: Term,
    form: Step,
)
    requires
        framed(ts, m, form.state),
    ensures
        framed(ts, m, add_form(ts, pos, depth, sum, form).state),
    decreases depth, ts.len() - pos, 1int,
{
    match form.result {
        Ok((value, next)) => {
            if pos < next <= ts.len() {
                lemma_frame_forms(
                    ts,
                    next,
                    form.state,
                    depth,
                    apply(Operator::Addition, sum, value),
                );
            }
        },
        Err(_) => {},
    }
}

proof fn lemma_frame_forms(ts: Seq<TokenView>, pos: int, m: Model, depth: nat, sum: Term)
    ensures
        framed(ts, m, eval_forms(ts, pos, m, depth, sum).state),
    decreases depth, ts.len() - pos, 2int,
{
    if 0 <= pos < ts.len() && ts[pos] != TokenView::RightParen {
        if operator_of(ts[pos]) is Some {
            let op = operator_of(ts[pos])->0;
            lemma_frame_unary(ts, pos + 1, m, depth, op, None);
            lemma_frame_add(ts, pos, m, depth, sum, eval_unary(ts, pos + 1, m, depth, op, None));
        } else if ts[pos] == TokenView::Defvar {
            lemma_frame_var(ts, pos + 1, m, depth);
            lemma_frame_add(ts, pos, m, depth, sum, push_var(ts, pos + 1, m, depth));
        } else if ts[pos] == TokenView::Defun {
            lemma_frame_definition(ts, pos + 1, m);
            let defined = push_function(ts, pos + 1, m);
            match defined.1 {
                Ok(next) => {
                    if pos < next <= ts.len() {
                        lemma_frame_forms(ts, next, defined.0, depth, sum);
                    }
                },
                Err(_) => {},
            }
        } else if ts[pos] is Symbol {
            lemma_frame_function(ts, pos + 1, m, depth, ts[pos]->Symbol_0);
            lemma_frame_add(
                ts,
                pos,
                m,
                depth,
                sum,
                eval_function(ts, pos + 1, m, depth, ts[pos]->Symbol_0),
            );
        } else {
            lemma_frame_forms(ts, pos + 1, m, depth, sum);
        }
    }
}

proof fn lemma_frame_unary(
    ts: Seq<TokenView>,
    pos: int,
    m: Model,
    depth: nat,
    op: Operator,
    folded: Option<Term>,
)
    ensures
        framed(ts, m, eval_unary(ts, pos, m, depth, op, folded).state),
    decreases depth, ts.len() - pos, 1int,
{
    if 0 <= pos < ts.len() && ts[pos] != TokenView::RightParen {
        lemma_frame_value(ts, pos, m, depth);
        let operand = get_value(ts, pos, m, depth);
        match operand.result {
            Ok((value, next)) => {
                if pos < next <= ts.len() {
                    lemma_frame_unary(
                        ts,
                        next,
                        operand.state,
                        depth,
                        op,
                        Some(
                            match folded {
                                Some(left) => apply(op, left, value),
                                None => value,
                            },
                        ),
                    );
                }
            },
            Err(_) => {},
        }
    }
}

proof fn lemma_frame_value(ts: Seq<TokenView>, pos: int, m: Model, depth: nat)
    ensures
        framed(ts, m, get_value(ts, pos, m, depth).state),
    decreases depth, ts.len() - pos, 0int,
{
    if 0 <= pos < ts.len() && ts[pos] == TokenView::LeftParen {
        lemma_frame_parenthesis(ts, pos + 1, m, depth);
    }
}

proof fn lemma_frame_var(ts: Seq<TokenView>, pos: int, m: Model, depth: nat)
    requires
        0 < pos <= ts.len(),
        ts[pos - 1] == TokenView::Defvar,
    ensures
        framed(ts, m, push_var(ts, pos, m, depth).state),
    decreases depth, ts.len() - pos, 0int,
{
    if pos + 1 < ts.len() && ts[pos] is Symbol && ts[pos + 1] == TokenView::LeftParen {
        lemma_frame_parenthesis(ts, pos + 2, m, depth);
    }
}

proof fn lemma_frame_definition(ts: Seq<TokenView>, pos: int, m: Model)
    requires
        0 < pos <= ts.len(),
        ts[pos - 1] == TokenView::Defun,
    ensures
        framed(ts, m, push_function(ts, pos, m).0),
{
    let after = push_function(ts, pos, m).0;
    if push_function(ts, pos, m).1 is Ok {
        let name = ts[pos]->Symbol_0;
        let body_start = run_end(ts, pos + 1, TokenView::LeftParen);
        let end = push_function(ts, pos, m).1->Ok_0;
        let function = after.functions[name];
        lemma_run_end_bounds(ts, pos + 1, TokenView::LeftParen);
        lemma_body_end_bounds(ts, body_start, 1);
        if free_of(ts, TokenView::Defvar) && bodies_free_of(m, TokenView::Defvar) {
            assert forall|other: Seq<char>| #[trigger]
                after.functions.dom().contains(other) implies free_of(
                after.functions[other].expr,
                TokenView::Defvar,
            ) by {
                if other == name {
                    assert forall|i: int| 0 <= i < function.expr.len() implies
                        #[trigger] function.expr[i] != TokenView::Defvar by {
                        assert(function.expr[i] == ts[body_start + i]);
                    }
                } else {
                    assert(m.functions.dom().contains(other));
                }
            }
        }
    }
}

proof fn lemma_body_end_bounds(ts: Seq<TokenView>, from: int, depth: nat)
    requires
        0 <= from <= ts.len(),
    ensures
        body_end(ts, from, depth) is Some ==> from < body_end(
            ts,
            from,
            depth,
        )->0 <= ts.len(),
    decreases ts.len() - from,
{
    if from < ts.len() {
        if ts[from] == TokenView::LeftParen {
            lemma_body_end_bounds(ts, from + 1, depth + 1);
        } else if ts[from] == TokenView::RightParen {
            if depth > 1 {
                lemma_body_end_bounds(ts, from + 1, (depth - 1) as nat);
            }
        } else {
            lemma_body_end_bounds(ts, from + 1, depth);
        }
    }
}

proof fn lemma_frame_function(
    ts: Seq<TokenView>,
    pos: int,
    m: Model,
    depth: nat,
    name: Seq<char>,
)
    requires
        0 <= pos <= ts.len(),
    ensures
        framed(ts, m, eval_function(ts, pos, m, depth, name).state),
    decreases depth, ts.len() - pos, 0int,
{
    if m.functions.dom().contains(name) && depth > 0 {
        let args_end = run_end(ts, pos, TokenView::RightParen);
        lemma_run_end_bounds(ts, pos, TokenView::RightParen);
        let function = m.functions[name];
        let actuals = ts.subrange(pos, args_end);
        let body = substitute(function.expr, function.args, actuals);
        lemma_frame_parenthesis(body, 0, m, (depth - 1) as nat);
        if free_of(ts, TokenView::Defvar) && bodies_free_of(m, TokenView::Defvar) {
            assert forall|i: int| 0 <= i < actuals.len() implies #[trigger] actuals[i]
                != TokenView::Defvar by {
                assert(actuals[i] == ts[pos + i]);
            }
            lemma_substitute_free_of(function.expr, function.args, actuals, TokenView::Defvar);
        }
        if free_of(ts, TokenView::Defun) && bodies_free_of(m, TokenView::Defun) {
            assert forall|i: int| 0 <= i < actuals.len() implies #[trigger] actuals[i]
                != TokenView::Defun by {
                assert(actuals[i] == ts[pos + i]);
            }
            lemma_substitute_free_of(function.expr, function.args, actuals, TokenView::Defun);
        }
    }
}

/// `step`, if it gave a number, left the cursor just behind a `)`.
pub open spec fn closed(ts: Seq<TokenView>, step: Step) -> bool {
    match step.result {
        Ok((_, next)) => 0 < next <= ts.len() && ts[next - 1] == TokenView::RightParen,
        Err(_) => true,
    }
}

proof fn lemma_closed_add(
    ts: Seq<TokenView>,
    pos: int,
    m: Model,
    depth: nat,
    sum: Term,
    form: Step,
)
    requires
        0 <= pos,
        free_of(ts, TokenView::Defun),
        bodies_free_of(m, TokenView::Defun),
        !m.fn_parsed,
        framed(ts, m, form.state),
    ensures
        closed(ts, add_form(ts, pos, depth, sum, form)),
    decreases ts.len() - pos, 0int,
{
    match form.result {
        Ok((value, next)) => {
            if pos < next <= ts.len() {
                lemma_closed_forms(
                    ts,
                    next,
                    form.state,
                    depth,
                    apply(Operator::Addition, sum, value),
                );
            }
        },
        Err(_) => {},
    }
}

proof fn lemma_closed_forms(ts: Seq<TokenView>, pos: int, m: Model, depth: nat, sum: Term)
    requires
        0 <= pos,
        free_of(ts, TokenView::Defun),
        bodies_free_of(m, TokenView::Defun),
        !m.fn_parsed,
    ensures
        closed(ts, eval_forms(ts, pos, m, depth, sum)),
    decreases ts.len() - pos, 1int,
{
    if pos < ts.len() && ts[pos] != TokenView::RightParen {
        if operator_of(ts[pos]) is Some {
            let op = operator_of(ts[pos])->0;
            lemma_frame_unary(ts, pos + 1, m, depth, op, None);
            lemma_closed_add(ts, pos, m, depth, sum, eval_unary(ts, pos + 1, m, depth, op, None));
        } else if ts[pos] == TokenView::Defvar {
            lemma_frame_var(ts, pos + 1, m, depth);
            lemma_closed_add(ts, pos, m, depth, sum, push_var(ts, pos + 1, m, depth));
        } else if ts[pos] is Symbol {
            lemma_frame_function(ts, pos + 1, m, depth, ts[pos]->Symbol_0);
            lemma_closed_add(
                ts,
                pos,
                m,
                depth,
                sum,
                eval_function(ts, pos + 1, m, depth, ts[pos]->Symbol_0),
            );
        } else {
            lemma_closed_forms(ts, pos + 1, m, depth, sum);
        }
    }
}

/// Every parenthesis that is opened must be closed: in a line that holds
/// no `defun`, where no function body holds one and no function has just
/// been defined, a parenthesis gives a number only if a `)` ends it.
pub proof fn lemma_parenthesis_is_closed(ts: Seq<TokenView>, pos: int, m: Model, depth: nat)
    requires
        0 <= pos,
        free_of(ts, TokenView::Defun),
        bodies_free_of(m, TokenView::Defun),
        !m.fn_parsed,
    ensures
        closed(ts, eval_parenthesis(ts, pos, m, depth)),
{
    if pos < ts.len() {
        lemma_closed_forms(ts, pos, m, depth, Term::Zero);
    }
}

/// An open parenthesis without any `)` behind it is an error, which the
/// line reports: in a line that begins with `(` and holds neither `)` nor
/// `defun`, where no function body holds a `defun` and no function has
/// just been defined, the register ends up with an error, and the line
/// shows it.
pub proof fn lemma_unmatched_open_fails(line: Seq<TokenView>, m: Model)
    requires
        line.len() > 0,
        line[0] == TokenView::LeftParen,
        free_of(line, TokenView::RightParen),
        free_of(line, TokenView::Defun),
        bodies_free_of(m, TokenView::Defun),
        !m.fn_parsed,
    ensures
        evaluate(line, m).1 is Outcome,
        evaluate(line, m).1->Outcome_0 is ParseError,
        evaluate(line, m).0.register == evaluate(line, m).1->Outcome_0,
{
    lemma_parenthesis_is_closed(line, 1, m, CALL_DEPTH as nat);
}

/// No line takes a name out of a table or moves it: what is defined stays
/// defined, and a name that is new comes behind the names before it.
pub proof fn lemma_names_stay(line: Seq<TokenView>, m: Model)
    ensures
        keeps_names(m, evaluate(line, m).0),
{
    if line.len() > 0 && line[0] == TokenView::LeftParen {
        lemma_frame_parenthesis(line, 1, m, CALL_DEPTH as nat);
    }
}

/// A variable stays bound to its number until it is defined again: a line
/// that holds no `defvar`, in a state where no function body holds one,
/// leaves every variable as it is, and leaves such a state.
pub proof fn lemma_variables_change_by_defvar_only(line: Seq<TokenView>, m: Model)
    requires
        free_of(line, TokenView::Defvar),
        bodies_free_of(m, TokenView::Defvar),
    ensures
        evaluate(line, m).0.variables == m.variables,
        evaluate(line, m).0.variable_names == m.variable_names,
        bodies_free_of(evaluate(line, m).0, TokenView::Defvar),
{
    if line.len() > 0 && line[0] == TokenView::LeftParen {
        lemma_frame_parenthesis(line, 1, m, CALL_DEPTH as nat);
    }
}

/// A function stays as it was defined until it is defined again: a line
/// that holds no `defun`, in a state where no function body holds one,
/// leaves every function as it is.
pub proof fn lemma_functions_change_by_defun_only(line: Seq<TokenView>, m: Model)
    requires
        free_of(line, TokenView::Defun),
        bodies_free_of(m, TokenView::Defun),
    ensures
        evaluate(line, m).0.functions == m.functions,
        evaluate(line, m).0.function_names == m.function_names,
{
    if line.len() > 0 && line[0] == TokenView::LeftParen {
        lemma_frame_parenthesis(line, 1, m, CALL_DEPTH as nat);
    }
}

} // verus!
