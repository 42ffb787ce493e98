//! The evaluator: two tables, a register for the last result, and the
//! functions that read a line of tokens and carry it out.

use crate::scanner::{line_of, render_line, token_views, Token, TokenView};
use crate::semantics;
use crate::semantics::{ErrorView, FunctionView, Model, OutcomeView, ReplyView, Step, CALL_DEPTH};
use crate::table::Table;
use crate::text::{debug, debug_text, same_text, text_views};
use crate::value::{Operator, Term, Value};
use vstd::prelude::*;
use vstd::string::StringExecFns;

verus! {

/// Why a line could not be evaluated.
#[derive(Debug)]
pub enum LispParseError {
    /// Nothing follows an opening parenthesis.
    MissingOperand,
    /// No variable has this name.
    InvalidSymbol(String),
    /// A token stands where a number was expected.
    InvalidArgument,
    /// `defvar` is not followed by a name.
    MissingSymbol,
    /// No function has this name.
    InvalidFunction(String),
    /// A parenthesis is not closed.
    MissingRightParen,
    /// `defun` is not followed by a name.
    MissingFunctionName,
    /// The line begins with nothing that can be evaluated.
    SyntaxError,
    /// Calls of defined functions nest more deeply than [`CALL_DEPTH`],
    /// as they do where a function calls itself.
    CallDepthExceeded,
}

impl View for LispParseError {
    type V = ErrorView;

    open spec fn view(&self) -> ErrorView {
        match self {
            LispParseError::MissingOperand => ErrorView::MissingOperand,
            LispParseError::InvalidSymbol(name) => ErrorView::InvalidSymbol(name@),
            LispParseError::InvalidArgument => ErrorView::InvalidArgument,
            LispParseError::MissingSymbol => ErrorView::MissingSymbol,
            LispParseError::InvalidFunction(name) => ErrorView::InvalidFunction(name@),
            LispParseError::MissingRightParen => ErrorView::MissingRightParen,
            LispParseError::MissingFunctionName => ErrorView::MissingFunctionName,
            LispParseError::SyntaxError => ErrorView::SyntaxError,
            LispParseError::CallDepthExceeded => ErrorView::CallDepthExceeded,
        }
    }
}

/// The text that shows an error: the name of its kind, and behind it, for
/// an error that carries a name, the name in parentheses, formatted as
/// `{:?}` formats a string.
pub open spec fn error_text(error: ErrorView) -> Seq<char> {
    match error {
        ErrorView::MissingOperand => "MissingOperand"@,
        ErrorView::InvalidSymbol(name) => "InvalidSymbol("@ + debug_text(name) + ")"@,
        ErrorView::InvalidArgument => "InvalidArgument"@,
        ErrorView::MissingSymbol => "MissingSymbol"@,
        ErrorView::InvalidFunction(name) => "InvalidFunction("@ + debug_text(name) + ")"@,
        ErrorView::MissingRightParen => "MissingRightParen"@,
        ErrorView::MissingFunctionName => "MissingFunctionName"@,
        ErrorView::SyntaxError => "SyntaxError"@,
        ErrorView::CallDepthExceeded => "CallDepthExceeded"@,
    }
}

impl LispParseError {
    /// The text that shows this error.
    pub fn render(&self) -> (text: String)
        ensures
            text@ == error_text(self@),
    {
        match self {
            LispParseError::MissingOperand => "MissingOperand".to_owned(),
            LispParseError::InvalidSymbol(name) => {
                let mut text = "InvalidSymbol(".to_owned();
                text.append(debug(name.as_str()).as_str());
                text.append(")");
                text
            },
            LispParseError::InvalidArgument => "InvalidArgument".to_owned(),
            LispParseError::MissingSymbol => "MissingSymbol".to_owned(),
            LispParseError::InvalidFunction(name) => {
                let mut text = "InvalidFunction(".to_owned();
                text.append(debug(name.as_str()).as_str());
                text.append(")");
                text
            },
            LispParseError::MissingRightParen => "MissingRightParen".to_owned(),
            LispParseError::MissingFunctionName => "MissingFunctionName".to_owned(),
            LispParseError::SyntaxError => "SyntaxError".to_owned(),
            LispParseError::CallDepthExceeded => "CallDepthExceeded".to_owned(),
        }
    }
}

impl Clone for LispParseError {
    fn clone(&self) -> (copy: Self)
        ensures
            copy == *self,
    {
        match self {
            LispParseError::MissingOperand => LispParseError::MissingOperand,
            LispParseError::InvalidSymbol(name) => LispParseError::InvalidSymbol(name.clone()),
            LispParseError::InvalidArgument => LispParseError::InvalidArgument,
            LispParseError::MissingSymbol => LispParseError::MissingSymbol,
            LispParseError::InvalidFunction(name) => LispParseError::InvalidFunction(name.clone()),
            LispParseError::MissingRightParen => LispParseError::MissingRightParen,
            LispParseError::MissingFunctionName => LispParseError::MissingFunctionName,
            LispParseError::SyntaxError => LispParseError::SyntaxError,
            LispParseError::CallDepthExceeded => LispParseError::CallDepthExceeded,
        }
    }
}

impl PartialEq for LispParseError {
    fn eq(&self, other: &Self) -> (same: bool) {
        match (self, other) {
            (LispParseError::MissingOperand, LispParseError::MissingOperand) => true,
            (LispParseError::InvalidSymbol(a), LispParseError::InvalidSymbol(b)) => same_text(
                a.as_str(),
                b.as_str(),
            ),
            (LispParseError::InvalidArgument, LispParseError::InvalidArgument) => true,
            (LispParseError::MissingSymbol, LispParseError::MissingSymbol) => true,
            (LispParseError::InvalidFunction(a), LispParseError::InvalidFunction(b)) => same_text(
                a.as_str(),
                b.as_str(),
            ),
            (LispParseError::MissingRightParen, LispParseError::MissingRightParen) => true,
            (LispParseError::MissingFunctionName, LispParseError::MissingFunctionName) => true,
            (LispParseError::SyntaxError, LispParseError::SyntaxError) => true,
            (LispParseError::CallDepthExceeded, LispParseError::CallDepthExceeded) => true,
            _ => false,
        }
    }
}

impl vstd::std_specs::cmp::PartialEqSpecImpl for LispParseError {
    open spec fn obeys_eq_spec() -> bool {
        true
    }

    open spec fn eq_spec(&self, other: &Self) -> bool {
        self@ == other@
    }
}

/// What the register of the last result holds.
#[derive(Debug)]
pub enum ParseResult {
    /// The name of the variable that was defined.
    InsertedVar(String),
    /// The name of the function that was defined.
    InsertedFunc(String),
    /// The number that an operator form gave.
    EvalUnary(Value),
    /// The error that ended the line.
    ParseError(LispParseError),
}

impl View for ParseResult {
    type V = OutcomeView;

    open spec fn view(&self) -> OutcomeView {
        match self {
            ParseResult::InsertedVar(name) => OutcomeView::InsertedVar(name@),
            ParseResult::InsertedFunc(name) => OutcomeView::InsertedFunc(name@),
            ParseResult::EvalUnary(value) => OutcomeView::EvalUnary(value@),
            ParseResult::ParseError(error) => OutcomeView::ParseError(error@),
        }
    }
}

/// The text that shows what the register holds, unless it holds a number:
/// the name of a function as it is, the name of a variable behind a quote,
/// an error behind `parse error: `. A number is for the caller to show.
pub open spec fn outcome_text(outcome: OutcomeView) -> Option<Seq<char>> {
    match outcome {
        OutcomeView::InsertedFunc(name) => Some(name),
        OutcomeView::InsertedVar(name) => Some("'"@ + name),
        OutcomeView::EvalUnary(_) => None,
        OutcomeView::ParseError(error) => Some("parse error: "@ + error_text(error)),
    }
}

impl ParseResult {
    /// The text that shows this outcome; `None` for a number.
    pub fn render(&self) -> (text: Option<String>)
        ensures
            match text {
                Some(text) => outcome_text(self@) == Some(text@),
                None => outcome_text(self@) is None,
            },
    {
        match self {
            ParseResult::InsertedFunc(name) => Some(name.clone()),
            ParseResult::InsertedVar(name) => {
                let mut text = "'".to_owned();
                text.append(name.as_str());
                Some(text)
            },
            ParseResult::EvalUnary(_) => None,
            ParseResult::ParseError(error) => {
                let mut text = "parse error: ".to_owned();
                text.append(error.render().as_str());
                Some(text)
            },
        }
    }
}

impl Clone for ParseResult {
    fn clone(&self) -> (copy: Self)
        ensures
            copy@ == self@,
    {
        match self {
            ParseResult::InsertedVar(name) => ParseResult::InsertedVar(name.clone()),
            ParseResult::InsertedFunc(name) => ParseResult::InsertedFunc(name.clone()),
            ParseResult::EvalUnary(value) => ParseResult::EvalUnary(value.clone()),
            ParseResult::ParseError(error) => ParseResult::ParseError(error.clone()),
        }
    }
}

impl PartialEq for ParseResult {
    fn eq(&self, other: &Self) -> (same: bool) {
        match (self, other) {
            (ParseResult::InsertedVar(a), ParseResult::InsertedVar(b)) => same_text(
                a.as_str(),
                b.as_str(),
            ),
            (ParseResult::InsertedFunc(a), ParseResult::InsertedFunc(b)) => same_text(
                a.as_str(),
                b.as_str(),
            ),
            (ParseResult::EvalUnary(a), ParseResult::EvalUnary(b)) => a.eq(b),
            (ParseResult::ParseError(a), ParseResult::ParseError(b)) => a.eq(b),
            _ => false,
        }
    }
}

impl vstd::std_specs::cmp::PartialEqSpecImpl for ParseResult {
    open spec fn obeys_eq_spec() -> bool {
        true
    }

    open spec fn eq_spec(&self, other: &Self) -> bool {
        self@ == other@
    }
}

/// What the caller is to show after a line.
#[derive(Debug)]
pub enum Reply {
    /// The register, as the line left it.
    Outcome(ParseResult),
    /// The table of the defined functions.
    FunctionTable,
}

impl View for Reply {
    type V = ReplyView;

    open spec fn view(&self) -> ReplyView {
        match self {
            Reply::Outcome(outcome) => ReplyView::Outcome(outcome@),
            Reply::FunctionTable => ReplyView::FunctionTable,
        }
    }
}

impl PartialEq for Reply {
    fn eq(&self, other: &Self) -> (same: bool) {
        match (self, other) {
            (Reply::Outcome(a), Reply::Outcome(b)) => a.eq(b),
            (Reply::FunctionTable, Reply::FunctionTable) => true,
            _ => false,
        }
    }
}

impl vstd::std_specs::cmp::PartialEqSpecImpl for Reply {
    open spec fn obeys_eq_spec() -> bool {
        true
    }

    open spec fn eq_spec(&self, other: &Self) -> bool {
        self@ == other@
    }
}

/// A defined function: its formal parameters and its body, both unevaluated.
#[derive(Debug)]
pub struct Function {
    pub args: Vec<Token>,
    pub expr: Vec<Token>,
}

impl View for Function {
    type V = FunctionView;

    open spec fn view(&self) -> FunctionView {
        FunctionView { args: token_views(self.args@), expr: token_views(self.expr@) }
    }
}

/// The text that shows a function: its parameters behind `Args: ` and, on
/// the next line, its body behind `Body:`.
pub open spec fn function_text(function: FunctionView) -> Seq<char> {
    "Args: "@ + line_of(function.args) + "\nBody:"@ + line_of(function.expr)
}

impl Function {
    /// The text that shows this function.
    pub fn render(&self) -> (text: String)
        ensures
            text@ == function_text(self@),
    {
        let mut text = "Args: ".to_owned();
        text.append(render_line(&self.args).as_str());
        text.append("\nBody:");
        text.append(render_line(&self.expr).as_str());
        text
    }
}

/// The evaluator.
pub struct Parser {
    variables: Table<Value>,
    functions: Table<Function>,
    parse_result: ParseResult,
    fn_parsed: bool,
}

impl View for Parser {
    type V = Model;

    closed spec fn view(&self) -> Model {
        Model {
            variables: self.variables@.map_values(|value: Value| value@),
            functions: self.functions@.map_values(|function: Function| function@),
            variable_names: self.variables.names(),
            function_names: self.functions.names(),
            register: self.parse_result@,
            fn_parsed: self.fn_parsed,
        }
    }
}

/// The state in which an evaluator begins: nothing is defined, and the
/// register holds the function name `nil`.
pub open spec fn initial_model() -> Model {
    Model {
        variables: Map::empty(),
        functions: Map::empty(),
        variable_names: Seq::empty(),
        function_names: Seq::empty(),
        register: OutcomeView::InsertedFunc("nil"@),
        fn_parsed: false,
    }
}

/// `result` and `state` are what `step` says.
pub open spec fn agrees(
    result: Result<(Value, usize), LispParseError>,
    state: Model,
    step: Step,
) -> bool {
    &&& state == step.state
    &&& match result {
        Ok((value, next)) => step.result == Ok::<(Term, int), ErrorView>((value@, next as int)),
        Err(error) => step.result == Err::<(Term, int), ErrorView>(error@),
    }
}

/// The operation that an operator token names.
fn operator(token: &Token) -> (op: Option<Operator>)
    ensures
        op == semantics::operator_of(token@),
{
    match token {
        Token::Plus => Some(Operator::Addition),
        Token::Minus => Some(Operator::Subtraction),
        Token::Asterisk => Some(Operator::Multiplication),
        Token::ForwardSlash => Some(Operator::Division),
        Token::Carat => Some(Operator::Exponential),
        _ => None,
    }
}

fn is_right_paren(token: &Token) -> (r: bool)
    ensures
        r == (token@ == TokenView::RightParen),
{
    match token {
        Token::RightParen => true,
        _ => false,
    }
}

fn is_left_paren(token: &Token) -> (r: bool)
    ensures
        r == (token@ == TokenView::LeftParen),
{
    match token {
        Token::LeftParen => true,
        _ => false,
    }
}

/// The index of the first token at or after `from` that equals `stop`.
fn find_token(tokens: &[Token], from: usize, stop: &Token) -> (end: usize)
    requires
        from <= tokens.len(),
    ensures
        end == semantics::run_end(token_views(tokens@), from as int, stop@),
        from <= end <= tokens.len(),
{
    let mut end: usize = from;
    while end < tokens.len() && !tokens[end].eq(stop)
        invariant
            from <= end <= tokens.len(),
            semantics::run_end(token_views(tokens@), from as int, stop@) == semantics::run_end(
                token_views(tokens@),
                end as int,
                stop@,
            ),
        decreases tokens.len() - end,
    {
        end += 1;
    }
    end
}

/// Where the function body that begins at `from` ends.
fn find_body_end(tokens: &[Token], from: usize) -> (end: Option<usize>)
    requires
        1 <= from <= tokens.len(),
    ensures
        match end {
            Some(end) => semantics::body_end(token_views(tokens@), from as int, 1) == Some(
                end as int,
            ) && from < end <= tokens.len(),
            None => semantics::body_end(token_views(tokens@), from as int, 1) is None,
        },
{
    let mut i: usize = from;
    let mut depth: usize = 1;
    while i < tokens.len()
        invariant
            1 <= from <= i <= tokens.len(),
            1 <= depth <= 1 + (i - from),
            semantics::body_end(token_views(tokens@), from as int, 1) == semantics::body_end(
                token_views(tokens@),
                i as int,
                depth as nat,
            ),
        decreases tokens.len() - i,
    {
        if is_left_paren(&tokens[i]) {
            depth += 1;
        } else if is_right_paren(&tokens[i]) {
            if depth == 1 {
                return Some(i + 1);
            }
            depth -= 1;
        }
        i += 1;
    }
    None
}

/// A copy of `tokens[from..to]`.
fn copy_tokens(tokens: &[Token], from: usize, to: usize) -> (copy: Vec<Token>)
    requires
        from <= to <= tokens.len(),
    ensures
        token_views(copy@) == token_views(tokens@).subrange(from as int, to as int),
{
    let mut copy: Vec<Token> = Vec::new();
    let mut i: usize = from;
    while i < to
        invariant
            from <= i <= to <= tokens.len(),
            token_views(copy@) =~= token_views(tokens@).subrange(from as int, i as int),
        decreases to - i,
    {
        let ghost before = token_views(copy@);
        copy.push(tokens[i].clone());
        assert(token_views(copy@) =~= before.push(tokens[i as int]@));
        i += 1;
    }
    copy
}

/// `body` with `actual` in place of every token that equals `formal`.
fn replace_token(body: &Vec<Token>, formal: &Token, actual: &Token) -> (out: Vec<Token>)
    ensures
        token_views(out@) == semantics::replace_token(token_views(body@), formal@, actual@),
{
    let mut out: Vec<Token> = Vec::new();
    let mut i: usize = 0;
    while i < body.len()
        invariant
            i <= body.len(),
            token_views(out@) =~= semantics::replace_token(
                token_views(body@),
                formal@,
                actual@,
            ).subrange(0, i as int),
        decreases body.len() - i,
    {
        let ghost before = token_views(out@);
        if body[i].eq(formal) {
            out.push(actual.clone());
            assert(token_views(out@) =~= before.push(actual@));
        } else {
            out.push(body[i].clone());
            assert(token_views(out@) =~= before.push(body[i as int]@));
        }
        i += 1;
    }
    assert(token_views(out@) =~= semantics::replace_token(token_views(body@), formal@, actual@));
    out
}

/// `body` after the formal parameters have been replaced, one after the
/// other, by the actual arguments `tokens[from..to]`.
fn substitute(
    body: &Vec<Token>,
    formals: &Vec<Token>,
    tokens: &[Token],
    from: usize,
    to: usize,
) -> (out: Vec<Token>)
    requires
        from <= to <= tokens.len(),
    ensures
        token_views(out@) == semantics::substitute(
            token_views(body@),
            token_views(formals@),
            token_views(tokens@).subrange(from as int, to as int),
        ),
{
    let ghost actuals = token_views(tokens@).subrange(from as int, to as int);
    let mut out = copy_tokens(body.as_slice(), 0, body.len());
    assert(token_views(out@) =~= token_views(body@));
    assert(token_views(formals@).skip(0) =~= token_views(formals@));
    assert(actuals.skip(0) =~= actuals);
    let mut k: usize = 0;
    while k < formals.len() && k < to - from
        invariant
            from <= to <= tokens.len(),
            k <= formals.len(),
            k <= to - from,
            actuals == token_views(tokens@).subrange(from as int, to as int),
            semantics::substitute(
                token_views(out@),
                token_views(formals@).skip(k as int),
                actuals.skip(k as int),
            ) == semantics::substitute(token_views(body@), token_views(formals@), actuals),
        decreases formals.len() - k,
    {
        let replaced = replace_token(&out, &formals[k], &tokens[from + k]);
        proof {
            assert(token_views(formals@).skip(k as int).drop_first() =~= token_views(
                formals@,
            ).skip(k + 1));
            assert(actuals.skip(k as int).drop_first() =~= actuals.skip(k + 1));
        }
        out = replaced;
        k += 1;
    }
    out
}

impl Parser {
    /// Both tables are well formed.
    pub closed spec fn wf(&self) -> bool {
        self.variables.wf() && self.functions.wf()
    }

    /// An evaluator in its initial state.
    pub fn new() -> (parser: Self)
        ensures
            parser.wf(),
            parser@ == initial_model(),
    {
        let parser = Parser {
            variables: Table::new(),
            functions: Table::new(),
            parse_result: ParseResult::InsertedFunc("nil".to_owned()),
            fn_parsed: false,
        };
        assert(parser@.variables =~= Map::empty());
        assert(parser@.functions =~= Map::empty());
        parser
    }

    /// The number that the variable `name` is bound to, if it is defined.
    pub fn variable(&self, name: &str) -> (value: Option<Value>)
        requires
            self.wf(),
        ensures
            match value {
                Some(value) => self@.variables.dom().contains(name@) && self@.variables[name@]
                    == value@,
                None => !self@.variables.dom().contains(name@),
            },
    {
        match self.variables.get(name) {
            Some(value) => Some(value.clone()),
            None => None,
        }
    }

    /// The function `name`, if it is defined.
    pub fn function(&self, name: &str) -> (function: Option<&Function>)
        requires
            self.wf(),
        ensures
            match function {
                Some(function) => self@.functions.dom().contains(name@) && self@.functions[name@]
                    == function@,
                None => !self@.functions.dom().contains(name@),
            },
    {
        self.functions.get(name)
    }

    /// The names of the defined variables, each of them once, in the order
    /// in which they were first defined.
    pub fn variable_names(&self) -> (names: Vec<String>)
        requires
            self.wf(),
        ensures
            text_views(names@) == self@.variable_names,
            text_views(names@).no_duplicates(),
            forall|name: Seq<char>|
                text_views(names@).contains(name) <==> self@.variables.dom().contains(name),
    {
        self.variables.name_list()
    }

    /// The names of the defined functions, each of them once, in the order
    /// in which they were first defined.
    pub fn function_names(&self) -> (names: Vec<String>)
        requires
            self.wf(),
        ensures
            text_views(names@) == self@.function_names,
            text_views(names@).no_duplicates(),
            forall|name: Seq<char>|
                text_views(names@).contains(name) <==> self@.functions.dom().contains(name),
    {
        self.functions.name_list()
    }

    /// What the register of the last result holds.
    pub fn last_result(&self) -> (outcome: &ParseResult)
        ensures
            outcome@ == self@.register,
    {
        &self.parse_result
    }

    /// Evaluates one line. What the line changed stays changed if a later
    /// part of it fails.
    ///
    /// Calls of defined functions may nest [`CALL_DEPTH`] deep within the
    /// line; a line whose calls nest more deeply ends in
    /// `CallDepthExceeded`. The bound is this library's choice, made so that
    /// a function that calls itself ends with an error; it stands for no
    /// limit of the machine. It shows in that error alone: a line that does
    /// not end in it gives what it would give under any greater bound, and
    /// where no function is defined no line ends in it (see
    /// [`crate::depth`]).
    pub fn evaluate(&mut self, tokens: &[Token]) -> (reply: Reply)
        requires
            old(self).wf(),
        ensures
            final(self).wf(),
            final(self)@ == semantics::evaluate(token_views(tokens@), old(self)@).0,
            reply@ == semantics::evaluate(token_views(tokens@), old(self)@).1,
    {
        if tokens.len() == 0 {
            return self.syntax_error();
        }
        match &tokens[0] {
            Token::Dollar => Reply::Outcome(self.parse_result.clone()),
            Token::LeftParen => {
                match self.eval_parenthesis(tokens, 1, CALL_DEPTH) {
                    Ok(_) => Reply::Outcome(self.parse_result.clone()),
                    Err(error) => {
                        self.parse_result = ParseResult::ParseError(error.clone());
                        Reply::Outcome(ParseResult::ParseError(error))
                    },
                }
            },
            Token::Symbol(name) => {
                if same_text(name.as_str(), "ftab") {
                    Reply::FunctionTable
                } else {
                    self.syntax_error()
                }
            },
            _ => self.syntax_error(),
        }
    }

    /// Puts a `SyntaxError` into the register and shows it.
    fn syntax_error(&mut self) -> (reply: Reply)
        requires
            old(self).wf(),
        ensures
            final(self).wf(),
            final(self)@ == semantics::syntax_error(old(self)@).0,
            reply@ == semantics::syntax_error(old(self)@).1,
    {
        self.parse_result = ParseResult::ParseError(LispParseError::SyntaxError);
        Reply::Outcome(ParseResult::ParseError(LispParseError::SyntaxError))
    }

    /// Evaluates the parenthesis whose `(` stands just before `pos`; on
    /// success, gives its number and the place behind it.
    fn eval_parenthesis(&mut self, tokens: &[Token], pos: usize, depth: usize) -> (result: Result<
        (Value, usize),
        LispParseError,
    >)
        requires
            old(self).wf(),
            pos <= tokens.len(),
        ensures
            final(self).wf(),
            agrees(
                result,
                final(self)@,
                semantics::eval_parenthesis(
                    token_views(tokens@),
                    pos as int,
                    old(self)@,
                    depth as nat,
                ),
            ),
            result is Ok ==> pos <= result->Ok_0.1 <= tokens.len(),
        decreases depth, tokens.len() - pos, 3int,
    {
        if pos >= tokens.len() {
            return Err(LispParseError::MissingOperand);
        }
        let ghost ts = token_views(tokens@);
        let ghost goal = semantics::eval_parenthesis(ts, pos as int, old(self)@, depth as nat);
        let mut sum = Value::Zero;
        let mut at: usize = pos;
        while at < tokens.len() && !is_right_paren(&tokens[at])
            invariant
                self.wf(),
                pos <= at <= tokens.len(),
                ts == token_views(tokens@),
                goal == semantics::eval_parenthesis(ts, pos as int, old(self)@, depth as nat),
                semantics::eval_forms(ts, at as int, self@, depth as nat, sum@) == goal,
            decreases tokens.len() - at,
        {
            let ghost before = self@;
            let ghost sum_before = sum@;
            let ghost expected: Step;
            let form;
            if let Some(op) = operator(&tokens[at]) {
                form = self.eval_unary(tokens, at + 1, depth, op);
                proof {
                    expected = semantics::eval_unary(ts, at + 1, before, depth as nat, op, None);
                }
            } else {
                match &tokens[at] {
                    Token::Defvar => {
                        form = self.push_var(tokens, at + 1, depth);
                        proof {
                            expected = semantics::push_var(ts, at + 1, before, depth as nat);
                        }
                    },
                    Token::Defun => {
                        match self.push_function(tokens, at + 1) {
                            Ok(next) => {
                                at = next;
                                continue ;
                            },
                            Err(error) => {
                                return Err(error);
                            },
                        }
                    },
                    Token::Symbol(name) => {
                        form = self.eval_function(name, tokens, at + 1, depth);
                        proof {
                            expected = semantics::eval_function(
                                ts,
                                at + 1,
                                before,
                                depth as nat,
                                name@,
                            );
                        }
                    },
                    _ => {
                        at += 1;
                        continue ;
                    },
                }
            }
            assert(agrees(form, self@, expected));
            assert(semantics::eval_forms(ts, at as int, before, depth as nat, sum_before)
                == semantics::add_form(ts, at as int, depth as nat, sum_before, expected));
            match form {
                Ok((value, next)) => {
                    sum = Value::apply(Operator::Addition, sum, value);
                    at = next;
                },
                Err(error) => {
                    return Err(error);
                },
            }
        }
        if at < tokens.len() {
            Ok((sum, at + 1))
        } else if self.fn_parsed {
            self.fn_parsed = false;
            Ok((sum, at))
        } else {
            Err(LispParseError::MissingRightParen)
        }
    }

    /// Evaluates the operator form whose operator stands just before `pos`;
    /// on success, gives the fold of its operands and the place behind them.
    fn eval_unary(
        &mut self,
        tokens: &[Token],
        pos: usize,
        depth: usize,
        op: Operator,
    ) -> (result: Result<(Value, usize), LispParseError>)
        requires
            old(self).wf(),
            pos <= tokens.len(),
        ensures
            final(self).wf(),
            agrees(
                result,
                final(self)@,
                semantics::eval_unary(
                    token_views(tokens@),
                    pos as int,
                    old(self)@,
                    depth as nat,
                    op,
                    None,
                ),
            ),
            result is Ok ==> pos <= result->Ok_0.1 <= tokens.len(),
        decreases depth, tokens.len() - pos, 1int,
    {
        let ghost ts = token_views(tokens@);
        let ghost goal = semantics::eval_unary(ts, pos as int, old(self)@, depth as nat, op, None);
        let mut folded: Option<Value> = None;
        let mut at: usize = pos;
        while at < tokens.len() && !is_right_paren(&tokens[at])
            invariant
                self.wf(),
                pos <= at <= tokens.len(),
                ts == token_views(tokens@),
                goal == semantics::eval_unary(ts, pos as int, old(self)@, depth as nat, op, None),
                semantics::eval_unary(
                    ts,
                    at as int,
                    self@,
                    depth as nat,
                    op,
                    match folded {
                        Some(value) => Some(value@),
                        None => None,
                    },
                ) == goal,
            decreases tokens.len() - at,
        {
            match self.get_value(tokens, at, depth) {
                Ok((value, next)) => {
                    folded = Some(
                        match folded {
                            Some(left) => Value::apply(op, left, value),
                            None => value,
                        },
                    );
                    at = next;
                },
                Err(error) => {
                    return Err(error);
                },
            }
        }
        match folded {
            Some(value) => {
                self.parse_result = ParseResult::EvalUnary(value.clone());
                Ok((value, at))
            },
            None => Err(LispParseError::InvalidArgument),
        }
    }

    /// Resolves the token at `pos` to a number; on success, gives the number
    /// and the place behind what stood for it.
    fn get_value(&mut self, tokens: &[Token], pos: usize, depth: usize) -> (result: Result<
        (Value, usize),
        LispParseError,
    >)
        requires
            old(self).wf(),
            pos <= tokens.len(),
        ensures
            final(self).wf(),
            agrees(
                result,
                final(self)@,
                semantics::get_value(token_views(tokens@), pos as int, old(self)@, depth as nat),
            ),
            result is Ok ==> pos < result->Ok_0.1 <= tokens.len(),
        decreases depth, tokens.len() - pos, 0int,
    {
        if pos >= tokens.len() {
            return Err(LispParseError::InvalidArgument);
        }
        match &tokens[pos] {
            Token::Number(numeral) => Ok((Value::literal(numeral), pos + 1)),
            Token::Symbol(name) => match self.variables.get(name.as_str()) {
                Some(value) => Ok((value.clone(), pos + 1)),
                None => Err(LispParseError::InvalidSymbol(name.clone())),
            },
            Token::LeftParen => self.eval_parenthesis(tokens, pos + 1, depth),
            Token::Dollar => match &self.parse_result {
                ParseResult::EvalUnary(value) => Ok((value.clone(), pos + 1)),
                ParseResult::ParseError(error) => Err(error.clone()),
                _ => Err(LispParseError::InvalidArgument),
            },
            Token::Minus => {
                if pos + 1 < tokens.len() {
                    match &tokens[pos + 1] {
                        Token::Number(numeral) => Ok(
                            (Value::negated(Value::literal(numeral)), pos + 2),
                        ),
                        _ => Err(LispParseError::InvalidArgument),
                    }
                } else {
                    Err(LispParseError::InvalidArgument)
                }
            },
            _ => Err(LispParseError::InvalidArgument),
        }
    }

    /// Binds the variable `name` to `value` and puts the name into the
    /// register.
    fn bind(&mut self, name: &String, value: &Value)
        requires
            old(self).wf(),
        ensures
            final(self).wf(),
            final(self)@ == semantics::bind_variable(old(self)@, name@, value@),
    {
        proof {
            self.variables.lemma_names();
        }
        self.parse_result = ParseResult::InsertedVar(name.clone());
        self.variables.insert(name.clone(), value.clone());
        assert(self@.variables =~= old(self)@.variables.insert(name@, value@));
    }

    /// Carries out the variable definition whose `defvar` stands just before
    /// `pos`; on success, gives the bound number and the place behind the
    /// definition.
    fn push_var(&mut self, tokens: &[Token], pos: usize, depth: usize) -> (result: Result<
        (Value, usize),
        LispParseError,
    >)
        requires
            old(self).wf(),
            pos <= tokens.len(),
        ensures
            final(self).wf(),
            agrees(
                result,
                final(self)@,
                semantics::push_var(token_views(tokens@), pos as int, old(self)@, depth as nat),
            ),
            result is Ok ==> pos <= result->Ok_0.1 <= tokens.len(),
        decreases depth, tokens.len() - pos, 0int,
    {
        if pos >= tokens.len() {
            return Err(LispParseError::MissingSymbol);
        }
        match &tokens[pos] {
            Token::Symbol(name) => {
                if pos + 1 >= tokens.len() {
                    return Err(LispParseError::InvalidArgument);
                }
                match &tokens[pos + 1] {
                    Token::Number(numeral) => {
                        let value = Value::literal(numeral);
                        self.bind(name, &value);
                        Ok((value, pos + 2))
                    },
                    Token::LeftParen => match self.eval_parenthesis(tokens, pos + 2, depth) {
                        Ok((value, next)) => {
                            self.bind(name, &value);
                            Ok((value, next))
                        },
                        Err(error) => Err(error),
                    },
                    _ => Err(LispParseError::InvalidArgument),
                }
            },
            Token::Number(_) => Err(LispParseError::InvalidArgument),
            _ => Err(LispParseError::MissingSymbol),
        }
    }

    /// Carries out the function definition whose `defun` stands just before
    /// `pos`; on success, gives the place behind the `)` that closes it.
    fn push_function(&mut self, tokens: &[Token], pos: usize) -> (result: Result<
        usize,
        LispParseError,
    >)
        requires
            old(self).wf(),
            pos <= tokens.len(),
        ensures
            final(self).wf(),
            final(self)@ == semantics::push_function(
                token_views(tokens@),
                pos as int,
                old(self)@,
            ).0,
            match result {
                Ok(next) => semantics::push_function(
                    token_views(tokens@),
                    pos as int,
                    old(self)@,
                ).1 == Ok::<int, ErrorView>(next as int) && pos < next <= tokens.len(),
                Err(error) => semantics::push_function(
                    token_views(tokens@),
                    pos as int,
                    old(self)@,
                ).1 == Err::<int, ErrorView>(error@),
            },
    {
        if pos >= tokens.len() {
            return Err(LispParseError::MissingFunctionName);
        }
        match &tokens[pos] {
            Token::Symbol(name) => {
                let body_start = find_token(tokens, pos + 1, &Token::LeftParen);
                match find_body_end(tokens, body_start) {
                    Some(end) => {
                        let args = copy_tokens(tokens, pos + 1, body_start);
                        let expr = copy_tokens(tokens, body_start, end - 1);
                        let function = Function { args, expr };
                        proof {
                            self.functions.lemma_names();
                        }
                        self.parse_result = ParseResult::InsertedFunc(name.clone());
                        self.functions.insert(name.clone(), function);
                        self.fn_parsed = true;
                        assert(self@.functions =~= old(self)@.functions.insert(name@, function@));
                        Ok(end)
                    },
                    None => Err(LispParseError::MissingRightParen),
                }
            },
            _ => Err(LispParseError::MissingFunctionName),
        }
    }

    /// Calls the function `name`, whose name stands just before `pos`; on
    /// success, gives the number of its body and the place behind the
    /// actual arguments.
    fn eval_function(
        &mut self,
        name: &String,
        tokens: &[Token],
        pos: usize,
        depth: usize,
    ) -> (result: Result<(Value, usize), LispParseError>)
        requires
            old(self).wf(),
            pos <= tokens.len(),
        ensures
            final(self).wf(),
            agrees(
                result,
                final(self)@,
                semantics::eval_function(
                    token_views(tokens@),
                    pos as int,
                    old(self)@,
                    depth as nat,
                    name@,
                ),
            ),
            result is Ok ==> pos <= result->Ok_0.1 <= tokens.len(),
        decreases depth, tokens.len() - pos, 0int,
    {
        let args_end = find_token(tokens, pos, &Token::RightParen);
        let body = match self.functions.get(name.as_str()) {
            Some(function) => substitute(&function.expr, &function.args, tokens, pos, args_end),
            None => {
                return Err(LispParseError::InvalidFunction(name.clone()));
            },
        };
        if depth == 0 {
            return Err(LispParseError::CallDepthExceeded);
        }
        match self.eval_parenthesis(body.as_slice(), 0, depth - 1) {
            Ok((value, _)) => Ok((value, args_end)),
            Err(error) => Err(error),
        }
    }
}

} // verus!
