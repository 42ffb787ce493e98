//! What evaluating a line means.
//!
//! A line is a sequence of tokens, read by a cursor that only moves forward.
//! Reading and evaluating go together: a form is carried out as soon as it
//! has been read, and what it changed (a variable, a function, the register
//! of the last result) stays changed when a later part of the line fails.

use crate::scanner::TokenView;
use crate::value::{Operator, Term};
use vstd::prelude::*;

verus! {

/// How deeply calls of defined functions may nest within one line. The
/// language has no conditional form, so a function that calls itself never
/// comes to an end; the bound is there to end such a line with an error.
/// Its value is a choice of this library: no line needs it to be 100, and
/// a line whose calls do nest more deeply fails for the bound alone.
pub const CALL_DEPTH: usize = 100;

/// Why a line could not be evaluated.
pub enum ErrorView {
    MissingOperand,
    InvalidSymbol(Seq<char>),
    InvalidArgument,
    MissingSymbol,
    InvalidFunction(Seq<char>),
    MissingRightParen,
    MissingFunctionName,
    SyntaxError,
    CallDepthExceeded,
}

/// What the register of the last result holds.
pub enum OutcomeView {
    InsertedVar(Seq<char>),
    InsertedFunc(Seq<char>),
    EvalUnary(Term),
    ParseError(ErrorView),
}

/// A defined function: its formal parameters and its body, both unevaluated.
pub struct FunctionView {
    pub args: Seq<TokenView>,
    pub expr: Seq<TokenView>,
}

/// The state of an evaluator.
pub struct Model {
    /// The number that each defined variable is bound to.
    pub variables: Map<Seq<char>, Term>,
    /// The parameters and the body of each defined function.
    pub functions: Map<Seq<char>, FunctionView>,
    /// The names of the variables, in the order in which they were first
    /// defined.
    pub variable_names: Seq<Seq<char>>,
    /// The names of the functions, in the order in which they were first
    /// defined.
    pub function_names: Seq<Seq<char>>,
    /// The outcome of the last form that was carried out.
    pub register: OutcomeView,
    /// Set when a function has just been defined; taken back by the first
    /// parenthesis that ends with the line instead of a `)`.
    pub fn_parsed: bool,
}

/// What carrying out a piece of a line gives: the state it leaves, and
/// either a number and the place of the cursor behind the piece, or the
/// error that stopped it.
pub struct Step {
    pub state: Model,
    pub result: Result<(Term, int), ErrorView>,
}

/// The step that stopped in `state` with `error`.
pub open spec fn failed(state: Model, error: ErrorView) -> Step {
    Step { state, result: Err(error) }
}

/// The step that gave `value` in `state` and left the cursor at `next`.
pub open spec fn done(state: Model, value: Term, next: int) -> Step {
    Step { state, result: Ok((value, next)) }
}

/// The operation that an operator token names.
pub open spec fn operator_of(token: TokenView) -> Option<Operator> {
    match token {
        TokenView::Plus => Some(Operator::Addition),
        TokenView::Minus => Some(Operator::Subtraction),
        TokenView::Asterisk => Some(Operator::Multiplication),
        TokenView::ForwardSlash => Some(Operator::Division),
        TokenView::Carat => Some(Operator::Exponential),
        _ => None,
    }
}

/// `left op right`.
pub open spec fn apply(op: Operator, left: Term, right: Term) -> Term {
    Term::Apply(op, Box::new(left), Box::new(right))
}

/// The index of the first token at or after `from` that equals `stop`; the
/// number of tokens if there is none.
pub open spec fn run_end(ts: Seq<TokenView>, from: int, stop: TokenView) -> int
    decreases ts.len() - from,
{
    if 0 <= from < ts.len() && ts[from] != stop {
        run_end(ts, from + 1, stop)
    } else {
        from
    }
}

/// Where a function body ends that begins at `from`, `depth` parentheses
/// being open there: the index behind the `)` that closes the last of them.
/// `None` if the tokens end before that.
pub open spec fn body_end(ts: Seq<TokenView>, from: int, depth: nat) -> Option<int>
    decreases ts.len() - from,
{
    if from < 0 || from >= ts.len() {
        None
    } else if ts[from] == TokenView::LeftParen {
        body_end(ts, from + 1, depth + 1)
    } else if ts[from] == TokenView::RightParen {
        if depth <= 1 {
            Some(from + 1)
        } else {
            body_end(ts, from + 1, (depth - 1) as nat)
        }
    } else {
        body_end(ts, from + 1, depth)
    }
}

/// `body` with `actual` in place of every token that equals `formal`.
pub open spec fn replace_token(
    body: Seq<TokenView>,
    formal: TokenView,
    actual: TokenView,
) -> Seq<TokenView> {
    body.map_values(
        |t: TokenView|
            if t == formal {
                actual
            } else {
                t
            },
    )
}

/// `body` after each formal parameter, from the first to the last, has been
/// replaced by the actual argument in the same place. Formals without an
/// actual, and actuals without a formal, are left out.
pub open spec fn substitute(
    body: Seq<TokenView>,
    formals: Seq<TokenView>,
    actuals: Seq<TokenView>,
) -> Seq<TokenView>
    decreases formals.len(),
{
    if formals.len() == 0 || actuals.len() == 0 {
        body
    } else {
        substitute(
            replace_token(body, formals[0], actuals[0]),
            formals.drop_first(),
            actuals.drop_first(),
        )
    }
}

/// `names` with `name` behind them, unless `name` is defined already.
pub open spec fn with_name(names: Seq<Seq<char>>, defined: bool, name: Seq<char>) -> Seq<
    Seq<char>,
> {
    if defined {
        names
    } else {
        names.push(name)
    }
}

/// `m` after `name` has been bound to `value`. A name that is new comes
/// last among the names; one that was bound before keeps its place.
pub open spec fn bind_variable(m: Model, name: Seq<char>, value: Term) -> Model {
    Model {
        variables: m.variables.insert(name, value),
        variable_names: with_name(m.variable_names, m.variables.dom().contains(name), name),
        register: OutcomeView::InsertedVar(name),
        ..m
    }
}

/// `m` after `name` has been defined as `function`. A name that is new
/// comes last among the names; one that was defined before keeps its place.
pub open spec fn bind_function(m: Model, name: Seq<char>, function: FunctionView) -> Model {
    Model {
        functions: m.functions.insert(name, function),
        function_names: with_name(m.function_names, m.functions.dom().contains(name), name),
        register: OutcomeView::InsertedFunc(name),
        fn_parsed: true,
        ..m
    }
}

/// A parenthesis whose `(` stands just before `pos`: the forms in it are
/// carried out one after the other, and their numbers are summed up.
/// `MissingOperand` if nothing follows the `(`.
pub open spec fn eval_parenthesis(ts: Seq<TokenView>, pos: int, m: Model, depth: nat) -> Step
    decreases depth, ts.len() - pos, 3int,
{
    if pos < 0 || pos >= ts.len() {
        failed(m, ErrorView::MissingOperand)
    } else {
        eval_forms(ts, pos, m, depth, Term::Zero)
    }
}

/// The rest of a parenthesis from `pos` on, `sum` being the sum of the
/// forms before `pos`.
///
/// - An operator begins an operator form.
/// - `defvar` begins a variable definition, `defun` a function definition
///   (which adds nothing to the sum).
/// - A symbol begins a call of the function of that name.
/// - Any other token but `)` is passed over.
/// - `)` ends the parenthesis. The end of the line ends it too if a
///   function has just been defined; if not, that is `MissingRightParen`.
pub open spec fn eval_forms(
    ts: Seq<TokenView>,
    pos: int,
    m: Model,
    depth: nat,
    sum: Term,
) -> Step
    decreases depth, ts.len() - pos, 2int,
{
    if pos < 0 {
        failed(m, ErrorView::MissingOperand)
    } else if pos >= ts.len() {
        if m.fn_parsed {
            done(Model { fn_parsed: false, ..m }, sum, pos)
        } else {
            failed(m, ErrorView::MissingRightParen)
        }
    } else if ts[pos] == TokenView::RightParen {
        done(m, sum, pos + 1)
    } else if operator_of(ts[pos]) is Some {
        add_form(
            ts,
            pos,
            depth,
            sum,
            eval_unary(ts, pos + 1, m, depth, operator_of(ts[pos])->0, None),
        )
    } else if ts[pos] == TokenView::Defvar {
        add_form(ts, pos, depth, sum, push_var(ts, pos + 1, m, depth))
    } else if ts[pos] == TokenView::Defun {
        let defined = push_function(ts, pos + 1, m);
        match defined.1 {
            Ok(next) => if pos < next <= ts.len() {
                eval_forms(ts, next, defined.0, depth, sum)
            } else {
                failed(defined.0, ErrorView::MissingRightParen)
            },
            Err(error) => failed(defined.0, error),
        }
    } else if ts[pos] is Symbol {
        add_form(ts, pos, depth, sum, eval_function(ts, pos + 1, m, depth, ts[pos]->Symbol_0))
    } else {
        eval_forms(ts, pos + 1, m, depth, sum)
    }
}

/// Goes on with the parenthesis after the form that began at `pos` and gave
/// `form`: its error ends the parenthesis, its number is added to `sum`.
pub open spec fn add_form(ts: Seq<TokenView>, pos: int, depth: nat, sum: Term, form: Step) -> Step
    decreases depth, ts.len() - pos, 1int,
{
    match form.result {
        Ok((value, next)) => if pos < next <= ts.len() {
            eval_forms(ts, next, form.state, depth, apply(Operator::Addition, sum, value))
        } else {
            failed(form.state, ErrorView::MissingRightParen)
        },
        Err(error) => failed(form.state, error),
    }
}

/// An operator form from `pos` on, just behind the operator or behind the
/// operands read so far, whose fold is `folded`: the operands up to the
/// next `)` or the end of the line are folded from the left, the first of
/// them being its own fold. The fold goes to the register.
/// `InvalidArgument` if there is no operand.
pub open spec fn eval_unary(
    ts: Seq<TokenView>,
    pos: int,
    m: Model,
    depth: nat,
    op: Operator,
    folded: Option<Term>,
) -> Step
    decreases depth, ts.len() - pos, 1int,
{
    if 0 <= pos < ts.len() && ts[pos] != TokenView::RightParen {
        let operand = get_value(ts, pos, m, depth);
        match operand.result {
            Ok((value, next)) => if pos < next <= ts.len() {
                eval_unary(
                    ts,
                    next,
                    operand.state,
                    depth,
                    op,
                    Some(
                        match folded {
                            Some(left) => apply(op, left, value),
                            None => value,
                        },
                    ),
                )
            } else {
                failed(operand.state, ErrorView::InvalidArgument)
            },
            Err(error) => failed(operand.state, error),
        }
    } else {
        match folded {
            Some(value) => done(Model { register: OutcomeView::EvalUnary(value), ..m }, value, pos),
            None => failed(m, ErrorView::InvalidArgument),
        }
    }
}

/// The number that the token at `pos` stands for.
///
/// - A numeral stands for itself.
/// - A symbol stands for the variable of that name; `InvalidSymbol` if
///   there is none.
/// - `(` opens a parenthesis, which is evaluated.
/// - `$` stands for the number in the register; if the register holds an
///   error, that error comes back; `InvalidArgument` if it holds a name.
/// - `-` with a numeral behind it stands for the negated numeral.
/// - Anything else, `)` and the end of the line are `InvalidArgument`.
pub open spec fn get_value(ts: Seq<TokenView>, pos: int, m: Model, depth: nat) -> Step
    decreases depth, ts.len() - pos, 0int,
{
    if pos < 0 || pos >= ts.len() {
        failed(m, ErrorView::InvalidArgument)
    } else {
        match ts[pos] {
            TokenView::Number(numeral) => done(m, Term::Literal(numeral), pos + 1),
            TokenView::Symbol(name) => if m.variables.dom().contains(name) {
                done(m, m.variables[name], pos + 1)
            } else {
                failed(m, ErrorView::InvalidSymbol(name))
            },
            TokenView::LeftParen => eval_parenthesis(ts, pos + 1, m, depth),
            TokenView::Dollar => match m.register {
                OutcomeView::EvalUnary(value) => done(m, value, pos + 1),
                OutcomeView::ParseError(error) => failed(m, error),
                _ => failed(m, ErrorView::InvalidArgument),
            },
            TokenView::Minus => if pos + 1 < ts.len() && ts[pos + 1] is Number {
                done(m, Term::Negated(Box::new(Term::Literal(ts[pos + 1]->Number_0))), pos + 2)
            } else {
                failed(m, ErrorView::InvalidArgument)
            },
            _ => failed(m, ErrorView::InvalidArgument),
        }
    }
}

/// A variable definition from `pos` on, just behind `defvar`: a symbol, then
/// a numeral or a parenthesis. The symbol is bound to the number, which is
/// also the number of the form.
///
/// `MissingSymbol` if no symbol or numeral follows `defvar`;
/// `InvalidArgument` if a numeral follows it, or if neither a numeral nor a
/// parenthesis follows the symbol. An error in the parenthesis comes back
/// as it is, and nothing is bound.
pub open spec fn push_var(ts: Seq<TokenView>, pos: int, m: Model, depth: nat) -> Step
    decreases depth, ts.len() - pos, 0int,
{
    if pos < 0 || pos >= ts.len() {
        failed(m, ErrorView::MissingSymbol)
    } else {
        match ts[pos] {
            TokenView::Symbol(name) => if pos + 1 >= ts.len() {
                failed(m, ErrorView::InvalidArgument)
            } else {
                match ts[pos + 1] {
                    TokenView::Number(numeral) => done(
                        bind_variable(m, name, Term::Literal(numeral)),
                        Term::Literal(numeral),
                        pos + 2,
                    ),
                    TokenView::LeftParen => {
                        let inner = eval_parenthesis(ts, pos + 2, m, depth);
                        match inner.result {
                            Ok((value, next)) => done(
                                bind_variable(inner.state, name, value),
                                value,
                                next,
                            ),
                            Err(error) => failed(inner.state, error),
                        }
                    },
                    _ => failed(m, ErrorView::InvalidArgument),
                }
            },
            TokenView::Number(_) => failed(m, ErrorView::InvalidArgument),
            _ => failed(m, ErrorView::MissingSymbol),
        }
    }
}

/// A function definition from `pos` on, just behind `defun`: the name, the
/// formal parameters (every token up to the next `(`), and the body, which
/// goes on until the parenthesis around the whole definition is closed. The
/// `)` that closes it is read, and is no part of the body.
///
/// `MissingFunctionName` if no symbol follows `defun`; `MissingRightParen`
/// if the line ends before the definition is closed. Nothing is defined
/// then.
pub open spec fn push_function(ts: Seq<TokenView>, pos: int, m: Model) -> (Model, Result<
    int,
    ErrorView,
>) {
    if 0 <= pos < ts.len() && ts[pos] is Symbol {
        let body_start = run_end(ts, pos + 1, TokenView::LeftParen);
        match body_end(ts, body_start, 1) {
            Some(end) => (
                bind_function(
                    m,
                    ts[pos]->Symbol_0,
                    FunctionView {
                        args: ts.subrange(pos + 1, body_start),
                        expr: ts.subrange(body_start, end - 1),
                    },
                ),
                Ok(end),
            ),
            None => (m, Err(ErrorView::MissingRightParen)),
        }
    } else {
        (m, Err(ErrorView::MissingFunctionName))
    }
}

/// A call of the function `name` from `pos` on, just behind the name: the
/// tokens up to the next `)` or the end of the line are the actual
/// arguments; they are put into the body in place of the formal parameters,
/// and the body is evaluated as a parenthesis, one call deeper.
///
/// `InvalidFunction` if no function has that name; `CallDepthExceeded` if
/// the call would nest more deeply than `depth` allows.
pub open spec fn eval_function(
    ts: Seq<TokenView>,
    pos: int,
    m: Model,
    depth: nat,
    name: Seq<char>,
) -> Step
    decreases depth, ts.len() - pos, 0int,
{
    let args_end = run_end(ts, pos, TokenView::RightParen);
    if !m.functions.dom().contains(name) {
        failed(m, ErrorView::InvalidFunction(name))
    } else if depth == 0 {
        failed(m, ErrorView::CallDepthExceeded)
    } else {
        let function = m.functions[name];
        let body = substitute(function.expr, function.args, ts.subrange(pos, args_end));
        let inner = eval_parenthesis(body, 0, m, (depth - 1) as nat);
        match inner.result {
            Ok((value, _)) => done(inner.state, value, args_end),
            Err(error) => failed(inner.state, error),
        }
    }
}

/// What the caller is to show after a line.
pub enum ReplyView {
    /// The register, as the line left it.
    Outcome(OutcomeView),
    /// The table of the defined functions.
    FunctionTable,
}

/// A line that cannot be evaluated at all: the error goes to the register
/// and is shown.
pub open spec fn syntax_error(m: Model) -> (Model, ReplyView) {
    (
        Model { register: OutcomeView::ParseError(ErrorView::SyntaxError), ..m },
        ReplyView::Outcome(OutcomeView::ParseError(ErrorView::SyntaxError)),
    )
}

/// A whole line, in which calls may nest `depth` deep.
///
/// - `$` shows the register and changes nothing.
/// - `(` opens a parenthesis, which is evaluated; what the register holds
///   afterwards is shown. If the parenthesis failed, the register holds
///   the error.
/// - The symbol `ftab` asks for the table of functions.
/// - Any other line, the empty one too, is a `SyntaxError`, which goes to
///   the register.
pub open spec fn evaluate_within(ts: Seq<TokenView>, m: Model, depth: nat) -> (Model, ReplyView) {
    if ts.len() == 0 {
        syntax_error(m)
    } else {
        match ts[0] {
            TokenView::Dollar => (m, ReplyView::Outcome(m.register)),
            TokenView::LeftParen => {
                let step = eval_parenthesis(ts, 1, m, depth);
                match step.result {
                    Ok(_) => (step.state, ReplyView::Outcome(step.state.register)),
                    Err(error) => (
                        Model { register: OutcomeView::ParseError(error), ..step.state },
                        ReplyView::Outcome(OutcomeView::ParseError(error)),
                    ),
                }
            },
            TokenView::Symbol(name) => if name == "ftab"@ {
                (m, ReplyView::FunctionTable)
            } else {
                syntax_error(m)
            },
            _ => syntax_error(m),
        }
    }
}

/// A whole line, in which calls may nest [`CALL_DEPTH`] deep.
pub open spec fn evaluate(ts: Seq<TokenView>, m: Model) -> (Model, ReplyView) {
    evaluate_within(ts, m, CALL_DEPTH as nat)
}

} // verus!
