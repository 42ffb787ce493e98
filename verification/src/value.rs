//! Numbers as the evaluator knows them: arithmetic terms over numerals.
//!
//! The evaluator decides which operations are applied to which operands and
//! in which order. It never looks into a number, so a number is kept as the
//! term that denotes it; carrying out the arithmetic is left to the caller.
//! A term shares its operands with every copy of it, so that a copy costs
//! no more than its topmost operation.

use crate::text::same_text;
use std::rc::Rc;
use vstd::prelude::*;

verus! {

/// The five arithmetic operations.
#[derive(Clone, Copy, Debug, PartialEq, Eq, Structural)]
pub enum Operator {
    Addition,
    Subtraction,
    Multiplication,
    Division,
    Exponential,
}

/// A number, as a term.
#[derive(Debug)]
pub enum Value {
    /// The number zero, with which every sum begins.
    Zero,
    /// The number that a numeral denotes.
    Literal(String),
    /// The negation of a number.
    Negated(Rc<Value>),
    /// An operation applied to a left and a right operand.
    Apply(Operator, Rc<Value>, Rc<Value>),
}

/// The mathematical value of a [`Value`].
pub enum Term {
    Zero,
    Literal(Seq<char>),
    Negated(Box<Term>),
    Apply(Operator, Box<Term>, Box<Term>),
}

/// The term that `value` stands for.
pub open spec fn term_of(value: Value) -> Term
    decreases value,
{
    match value {
        Value::Zero => Term::Zero,
        Value::Literal(s) => Term::Literal(s@),
        Value::Negated(inner) => Term::Negated(Box::new(term_of(*inner))),
        Value::Apply(op, left, right) => Term::Apply(
            op,
            Box::new(term_of(*left)),
            Box::new(term_of(*right)),
        ),
    }
}

impl View for Value {
    type V = Term;

    open spec fn view(&self) -> Term {
        term_of(*self)
    }
}

/// `Rc::clone` gives a further pointer to the value that `operand` points
/// to; the value itself is not copied. (It gives up only when the count of
/// the pointers overflows, which memory does not hold enough pointers for.)
#[verifier::external_body]
fn share(operand: &Rc<Value>) -> (copy: Rc<Value>)
    ensures
        copy == *operand,
{
    Rc::clone(operand)
}

impl Clone for Value {
    fn clone(&self) -> (copy: Self)
        ensures
            copy@ == self@,
    {
        match self {
            Value::Zero => Value::Zero,
            Value::Literal(s) => Value::Literal(s.clone()),
            Value::Negated(inner) => Value::Negated(share(inner)),
            Value::Apply(op, left, right) => Value::Apply(*op, share(left), share(right)),
        }
    }
}

impl PartialEq for Value {
    fn eq(&self, other: &Self) -> (same: bool)
        decreases self,
    {
        match (self, other) {
            (Value::Zero, Value::Zero) => true,
            (Value::Literal(a), Value::Literal(b)) => same_text(a.as_str(), b.as_str()),
            (Value::Negated(a), Value::Negated(b)) => (&**a).eq(&**b),
            (Value::Apply(op, a, b), Value::Apply(other_op, c, d)) => *op == *other_op && (
            &**a).eq(&**c) && (&**b).eq(&**d),
            _ => false,
        }
    }
}

impl vstd::std_specs::cmp::PartialEqSpecImpl for Value {
    open spec fn obeys_eq_spec() -> bool {
        true
    }

    open spec fn eq_spec(&self, other: &Self) -> bool {
        self@ == other@
    }
}

impl Value {
    /// The number that `numeral` denotes.
    pub fn literal(numeral: &String) -> (value: Value)
        ensures
            value@ == Term::Literal(numeral@),
    {
        Value::Literal(numeral.clone())
    }

    /// The negation of `inner`.
    pub fn negated(inner: Value) -> (value: Value)
        ensures
            value@ == Term::Negated(Box::new(inner@)),
    {
        Value::Negated(Rc::new(inner))
    }

    /// `left op right`.
    pub fn apply(op: Operator, left: Value, right: Value) -> (value: Value)
        ensures
            value@ == Term::Apply(op, Box::new(left@), Box::new(right@)),
    {
        Value::Apply(op, Rc::new(left), Rc::new(right))
    }
}

} // verus!
