//! Runtime values and the rules of the operators.
//!
//! Numbers are doubles, held by their bit patterns.  The operators compare and
//! negate numbers themselves; where two numbers are to be added, subtracted,
//! multiplied or divided, an operator answers with the request to do so.

use crate::number;
use crate::parser::Operator;
use crate::text::{Fragment, FragmentView};
use vstd::prelude::*;
use vstd::string::StringExecFns;

verus! {

/// A value that evaluation produces.  No value holds another value.
#[derive(Debug, Clone)]
pub enum RuntimeValue {
    /// A double, by its bit pattern.
    Number(u64),
    Boolean(bool),
    String(String),
    Nil,
}

/// Mathematical model of a [`RuntimeValue`].
pub enum ValueView {
    Number(u64),
    Boolean(bool),
    String(Seq<char>),
    Nil,
}

/// The kind of a value.
#[derive(Debug, Clone, Copy, PartialEq, Eq, Structural)]
pub enum Kind {
    Number,
    Boolean,
    String,
    Nil,
}

/// One of the four operations on two numbers that the evaluator asks its
/// caller to perform.
#[derive(Debug, Clone, Copy, PartialEq, Eq, Structural)]
pub enum Arithmetic {
    Add,
    Subtract,
    Multiply,
    Divide,
}

/// A question about numbers that the evaluator puts to its caller.  The answer
/// is the bit pattern of a double.
#[derive(Debug, Clone, PartialEq)]
pub enum Request {
    /// The double nearest to the number that a numeral denotes.
    Decode(String),
    /// The result of an operation on two doubles, the left operand first.
    Compute(Arithmetic, u64, u64),
}

/// Mathematical model of a [`Request`].
pub enum RequestView {
    Decode(Seq<char>),
    Compute(Arithmetic, u64, u64),
}

/// What an operator makes of its operands: a value, or the request for the
/// number that is its value.
#[derive(Debug, Clone, PartialEq)]
pub enum Reduction {
    Value(RuntimeValue),
    Ask(Request),
}

/// Mathematical model of a [`Reduction`].
pub enum ReductionView {
    Value(ValueView),
    Ask(RequestView),
}

/// Why an evaluation failed.
#[derive(Debug, Clone, PartialEq)]
pub enum EvalError {
    /// An arithmetic operator met operands of kinds that it does not combine:
    /// the operator, the kind on its left and the kind on its right.
    Operands(Operator, Kind, Kind),
    /// A relational operator met an operand that is not a number.
    NotNumbers,
    /// Unary minus met a boolean or a string.
    NotNegatable(Kind),
    /// A name that is not bound was read.
    Undefined(String),
    /// An operator stands where the language gives it no meaning.
    Unsupported(Operator),
}

/// Mathematical model of an [`EvalError`].
pub enum EvalErrorView {
    Operands(Operator, Kind, Kind),
    NotNumbers,
    NotNegatable(Kind),
    Undefined(Seq<char>),
    Unsupported(Operator),
}

impl View for RuntimeValue {
    type V = ValueView;

    open spec fn view(&self) -> ValueView {
        match self {
            RuntimeValue::Number(bits) => ValueView::Number(*bits),
            RuntimeValue::Boolean(b) => ValueView::Boolean(*b),
            RuntimeValue::String(s) => ValueView::String(s@),
            RuntimeValue::Nil => ValueView::Nil,
        }
    }
}

impl View for Request {
    type V = RequestView;

    open spec fn view(&self) -> RequestView {
        match self {
            Request::Decode(numeral) => RequestView::Decode(numeral@),
            Request::Compute(op, left, right) => RequestView::Compute(*op, *left, *right),
        }
    }
}

impl View for Reduction {
    type V = ReductionView;

    open spec fn view(&self) -> ReductionView {
        match self {
            Reduction::Value(value) => ReductionView::Value(value@),
            Reduction::Ask(request) => ReductionView::Ask(request@),
        }
    }
}

impl View for EvalError {
    type V = EvalErrorView;

    open spec fn view(&self) -> EvalErrorView {
        match self {
            EvalError::Operands(op, left, right) => EvalErrorView::Operands(*op, *left, *right),
            EvalError::NotNumbers => EvalErrorView::NotNumbers,
            EvalError::NotNegatable(kind) => EvalErrorView::NotNegatable(*kind),
            EvalError::Undefined(name) => EvalErrorView::Undefined(name@),
            EvalError::Unsupported(op) => EvalErrorView::Unsupported(*op),
        }
    }
}

/// The model of an outcome: the model of what was made, or of the error.
pub open spec fn outcome_view<T: View>(outcome: Result<T, EvalError>) -> Result<
    T::V,
    EvalErrorView,
> {
    match outcome {
        Ok(made) => Ok(made@),
        Err(error) => Err(error@),
    }
}

impl Arithmetic {
    /// The operator of the language that asks for this operation.
    pub open spec fn operator_spec(self) -> Operator {
        match self {
            Arithmetic::Add => Operator::Add,
            Arithmetic::Subtract => Operator::Subtract,
            Arithmetic::Multiply => Operator::Multiply,
            Arithmetic::Divide => Operator::Divide,
        }
    }

    /// The operator of the language that asks for this operation.
    pub fn operator(self) -> (op: Operator)
        ensures
            op == self.operator_spec(),
    {
        match self {
            Arithmetic::Add => Operator::Add,
            Arithmetic::Subtract => Operator::Subtract,
            Arithmetic::Multiply => Operator::Multiply,
            Arithmetic::Divide => Operator::Divide,
        }
    }
}

impl Kind {
    /// The name of the kind.
    pub open spec fn name_spec(self) -> Seq<char> {
        match self {
            Kind::Number => "Number"@,
            Kind::Boolean => "Boolean"@,
            Kind::String => "String"@,
            Kind::Nil => "Nil"@,
        }
    }

    /// The name of the kind.
    pub fn name(self) -> (name: &'static str)
        ensures
            name@ == self.name_spec(),
    {
        match self {
            Kind::Number => "Number",
            Kind::Boolean => "Boolean",
            Kind::String => "String",
            Kind::Nil => "Nil",
        }
    }
}

impl EvalErrorView {
    /// The message of the error.
    pub open spec fn message(self) -> Seq<char> {
        match self {
            EvalErrorView::Operands(op, left, right) => "Cannot apply "@ + op.sign_spec() + " to "@
                + left.name_spec() + " and "@ + right.name_spec() + "."@,
            EvalErrorView::NotNumbers => "Operands must be numbers."@,
            EvalErrorView::NotNegatable(kind) => if kind == Kind::Boolean {
                "Can not take the negative of a boolean."@
            } else {
                "Operand must be a number."@
            },
            EvalErrorView::Undefined(name) => "Undefined variable '"@ + name + "'"@,
            EvalErrorView::Unsupported(op) => "Operator "@ + op.sign_spec()
                + " is not supported here."@,
        }
    }
}

impl EvalError {
    /// The message of the error.
    pub fn message(&self) -> (message: String)
        ensures
            message@ == self@.message(),
    {
        match self {
            EvalError::Operands(op, left, right) => {
                let mut message = String::from_str("Cannot apply ");
                message.append(op.sign());
                message.append(" to ");
                message.append(left.name());
                message.append(" and ");
                message.append(right.name());
                message.append(".");
                message
            },
            EvalError::NotNumbers => String::from_str("Operands must be numbers."),
            EvalError::NotNegatable(kind) => match kind {
                Kind::Boolean => String::from_str("Can not take the negative of a boolean."),
                _ => String::from_str("Operand must be a number."),
            },
            EvalError::Undefined(name) => {
                let mut message = String::from_str("Undefined variable '");
                message.append(name.as_str());
                message.append("'");
                message
            },
            EvalError::Unsupported(op) => {
                let mut message = String::from_str("Operator ");
                message.append(op.sign());
                message.append(" is not supported here.");
                message
            },
        }
    }
}

impl ValueView {
    /// The kind of the value.
    pub open spec fn kind(self) -> Kind {
        match self {
            ValueView::Number(_) => Kind::Number,
            ValueView::Boolean(_) => Kind::Boolean,
            ValueView::String(_) => Kind::String,
            ValueView::Nil => Kind::Nil,
        }
    }

    /// Whether the value counts as true: a number above zero, or `true`.
    /// Strings and `nil` never do.
    pub open spec fn truthy(self) -> bool {
        match self {
            ValueView::Number(x) => number::is_positive(x),
            ValueView::Boolean(b) => b,
            ValueView::String(_) => false,
            ValueView::Nil => false,
        }
    }

    /// `==` on values: values of different kinds are unequal, numbers are
    /// equal as doubles are, everything else as it is written.
    pub open spec fn equals(self, other: ValueView) -> bool {
        match (self, other) {
            (ValueView::Number(x), ValueView::Number(y)) => number::equal_spec(x, y),
            (ValueView::Boolean(x), ValueView::Boolean(y)) => x == y,
            (ValueView::String(x), ValueView::String(y)) => x == y,
            (ValueView::Nil, ValueView::Nil) => true,
            _ => false,
        }
    }

    /// The rule of `+`, `-`, `*` and `/`.  Two numbers ask for the operation.
    /// Two strings are joined by `+`.  Where an operand is `nil`, `+` gives
    /// `false` and the other three give `nil`.  Every other pair fails.
    pub open spec fn arithmetic(self, op: Arithmetic, other: ValueView) -> Result<
        ReductionView,
        EvalErrorView,
    > {
        match (self, other) {
            (ValueView::Number(x), ValueView::Number(y)) => Ok(
                ReductionView::Ask(RequestView::Compute(op, x, y)),
            ),
            (ValueView::Nil, _) | (_, ValueView::Nil) => Ok(
                ReductionView::Value(
                    if op == Arithmetic::Add {
                        ValueView::Boolean(false)
                    } else {
                        ValueView::Nil
                    },
                ),
            ),
            (ValueView::String(x), ValueView::String(y)) => if op == Arithmetic::Add {
                Ok(ReductionView::Value(ValueView::String(x + y)))
            } else {
                Err(EvalErrorView::Operands(op.operator_spec(), Kind::String, Kind::String))
            },
            _ => Err(EvalErrorView::Operands(op.operator_spec(), self.kind(), other.kind())),
        }
    }

    /// The rule of `and`, which never fails.  Numbers and booleans combine by
    /// their truth.  Two strings are joined.  Every other pair, which is to
    /// say every pair with a `nil` or with one string in it, gives `false`.
    pub open spec fn and(self, other: ValueView) -> ValueView {
        match (self, other) {
            (ValueView::String(x), ValueView::String(y)) => ValueView::String(x + y),
            (ValueView::String(_), _) | (_, ValueView::String(_)) => ValueView::Boolean(false),
            (ValueView::Nil, _) | (_, ValueView::Nil) => ValueView::Boolean(false),
            _ => ValueView::Boolean(self.truthy() && other.truthy()),
        }
    }

    /// The rule of `<`, `<=`, `>` and `>=`: two numbers are compared,
    /// everything else fails.
    pub open spec fn relation(self, op: Operator, other: ValueView) -> Result<
        ValueView,
        EvalErrorView,
    > {
        match (self, other) {
            (ValueView::Number(x), ValueView::Number(y)) => Ok(
                ValueView::Boolean(
                    match op {
                        Operator::Less => number::less_spec(x, y),
                        Operator::LessEqual => number::less_equal_spec(x, y),
                        Operator::Greater => number::less_spec(y, x),
                        _ => number::less_equal_spec(y, x),
                    },
                ),
            ),
            _ => Err(EvalErrorView::NotNumbers),
        }
    }

    /// The rule of unary `-`: a number changes its sign, `nil` gives `false`,
    /// booleans and strings fail.
    pub open spec fn negate(self) -> Result<ValueView, EvalErrorView> {
        match self {
            ValueView::Number(x) => Ok(ValueView::Number(number::negate_spec(x))),
            ValueView::Nil => Ok(ValueView::Boolean(false)),
            _ => Err(EvalErrorView::NotNegatable(self.kind())),
        }
    }

    /// The rule of unary `!`: a number gives whether it is not above zero, a
    /// boolean its opposite, a string `false` and `nil` `true`.
    pub open spec fn not_and(self) -> ValueView {
        match self {
            ValueView::Number(x) => ValueView::Boolean(!number::is_positive(x)),
            ValueView::Boolean(b) => ValueView::Boolean(!b),
            ValueView::String(_) => ValueView::Boolean(false),
            ValueView::Nil => ValueView::Boolean(true),
        }
    }

    /// How the value is printed: a number by itself, a boolean as `true` or
    /// `false`, a string by its characters, and `nil` as `nil`.
    pub open spec fn text(self) -> FragmentView {
        match self {
            ValueView::Number(x) => FragmentView::Number(x),
            ValueView::Boolean(b) => FragmentView::Text(
                if b {
                    "true"@
                } else {
                    "false"@
                },
            ),
            ValueView::String(s) => FragmentView::Text(s),
            ValueView::Nil => FragmentView::Text("nil"@),
        }
    }
}

impl PartialEq for RuntimeValue {
    /// `==` on values.
    fn eq(&self, other: &RuntimeValue) -> (r: bool) {
        match (self, other) {
            (RuntimeValue::Number(x), RuntimeValue::Number(y)) => number::equal(*x, *y),
            (RuntimeValue::Boolean(x), RuntimeValue::Boolean(y)) => *x == *y,
            (RuntimeValue::String(x), RuntimeValue::String(y)) => *x == *y,
            (RuntimeValue::Nil, RuntimeValue::Nil) => true,
            _ => false,
        }
    }
}

impl vstd::std_specs::cmp::PartialEqSpecImpl for RuntimeValue {
    open spec fn obeys_eq_spec() -> bool {
        true
    }

    open spec fn eq_spec(&self, other: &RuntimeValue) -> bool {
        self@.equals(other@)
    }
}

/// The two strings joined.
fn joined(left: String, right: &String) -> (s: String)
    ensures
        s@ == left@ + right@,
{
    left.concat(right.as_str())
}

impl RuntimeValue {
    /// The kind of the value.
    pub fn kind(&self) -> (kind: Kind)
        ensures
            kind == self@.kind(),
    {
        match self {
            RuntimeValue::Number(_) => Kind::Number,
            RuntimeValue::Boolean(_) => Kind::Boolean,
            RuntimeValue::String(_) => Kind::String,
            RuntimeValue::Nil => Kind::Nil,
        }
    }

    /// A copy of the value.
    pub fn copy(&self) -> (value: RuntimeValue)
        ensures
            value@ == self@,
    {
        match self {
            RuntimeValue::Number(x) => RuntimeValue::Number(*x),
            RuntimeValue::Boolean(b) => RuntimeValue::Boolean(*b),
            RuntimeValue::String(s) => RuntimeValue::String(s.clone()),
            RuntimeValue::Nil => RuntimeValue::Nil,
        }
    }

    /// Whether the value counts as true.
    pub fn truthy(&self) -> (b: bool)
        ensures
            b == self@.truthy(),
    {
        match self {
            RuntimeValue::Number(x) => number::positive(*x),
            RuntimeValue::Boolean(b) => *b,
            RuntimeValue::String(_) => false,
            RuntimeValue::Nil => false,
        }
    }

    /// The rule that `+`, `-`, `*` and `/` share.
    fn arithmetic(self, op: Arithmetic, other: RuntimeValue) -> (result: Result<
        Reduction,
        EvalError,
    >)
        ensures
            outcome_view(result) == self@.arithmetic(op, other@),
    {
        match (self, other) {
            (RuntimeValue::Number(x), RuntimeValue::Number(y)) => Ok(
                Reduction::Ask(Request::Compute(op, x, y)),
            ),
            (RuntimeValue::Nil, _) => Ok(Reduction::Value(nil_result(op))),
            (_, RuntimeValue::Nil) => Ok(Reduction::Value(nil_result(op))),
            (RuntimeValue::String(x), RuntimeValue::String(y)) => match op {
                Arithmetic::Add => Ok(Reduction::Value(RuntimeValue::String(joined(x, &y)))),
                _ => Err(EvalError::Operands(op.operator(), Kind::String, Kind::String)),
            },
            (left, right) => Err(EvalError::Operands(op.operator(), left.kind(), right.kind())),
        }
    }

    /// `self + other`
    pub fn add(self, other: RuntimeValue) -> (result: Result<Reduction, EvalError>)
        ensures
            outcome_view(result) == self@.arithmetic(Arithmetic::Add, other@),
    {
        self.arithmetic(Arithmetic::Add, other)
    }

    /// `self * other`
    pub fn multiply(self, other: RuntimeValue) -> (result: Result<Reduction, EvalError>)
        ensures
            outcome_view(result) == self@.arithmetic(Arithmetic::Multiply, other@),
    {
        self.arithmetic(Arithmetic::Multiply, other)
    }

    /// `self / other`
    pub fn divide(self, other: RuntimeValue) -> (result: Result<Reduction, EvalError>)
        ensures
            outcome_view(result) == self@.arithmetic(Arithmetic::Divide, other@),
    {
        self.arithmetic(Arithmetic::Divide, other)
    }

    /// `self - other`
    pub fn subtract(self, other: RuntimeValue) -> (result: Result<Reduction, EvalError>)
        ensures
            outcome_view(result) == self@.arithmetic(Arithmetic::Subtract, other@),
    {
        self.arithmetic(Arithmetic::Subtract, other)
    }

    /// `-self`
    pub fn negate(&self) -> (result: Result<RuntimeValue, EvalError>)
        ensures
            outcome_view(result) == self@.negate(),
    {
        match self {
            RuntimeValue::Number(x) => Ok(RuntimeValue::Number(number::negate(*x))),
            RuntimeValue::Boolean(_) => Err(EvalError::NotNegatable(Kind::Boolean)),
            RuntimeValue::String(_) => Err(EvalError::NotNegatable(Kind::String)),
            RuntimeValue::Nil => Ok(RuntimeValue::Boolean(false)),
        }
    }

    /// `!self`
    pub fn not_and(self) -> (result: Result<RuntimeValue, EvalError>)
        ensures
            outcome_view(result) == Ok::<ValueView, EvalErrorView>(self@.not_and()),
    {
        match self {
            RuntimeValue::Number(x) => Ok(RuntimeValue::Boolean(!number::positive(x))),
            RuntimeValue::Boolean(x) => Ok(RuntimeValue::Boolean(!x)),
            RuntimeValue::String(_) => Ok(RuntimeValue::Boolean(false)),
            RuntimeValue::Nil => Ok(RuntimeValue::Boolean(true)),
        }
    }

    /// `self and other`
    pub fn and(self, other: RuntimeValue) -> (result: Result<RuntimeValue, EvalError>)
        ensures
            outcome_view(result) == Ok::<ValueView, EvalErrorView>(self@.and(other@)),
    {
        match (self, other) {
            (RuntimeValue::String(x), RuntimeValue::String(y)) => Ok(
                RuntimeValue::String(joined(x, &y)),
            ),
            (RuntimeValue::String(_), _) => Ok(RuntimeValue::Boolean(false)),
            (_, RuntimeValue::String(_)) => Ok(RuntimeValue::Boolean(false)),
            (RuntimeValue::Nil, _) => Ok(RuntimeValue::Boolean(false)),
            (_, RuntimeValue::Nil) => Ok(RuntimeValue::Boolean(false)),
            (left, right) => Ok(RuntimeValue::Boolean(left.truthy() && right.truthy())),
        }
    }

    /// `self < other`
    pub fn less_than(self, other: RuntimeValue) -> (result: Result<RuntimeValue, EvalError>)
        ensures
            outcome_view(result) == self@.relation(Operator::Less, other@),
    {
        match (self, other) {
            (RuntimeValue::Number(x), RuntimeValue::Number(y)) => Ok(
                RuntimeValue::Boolean(number::less(x, y)),
            ),
            _ => Err(EvalError::NotNumbers),
        }
    }

    /// `self <= other`
    pub fn less_than_equal(self, other: RuntimeValue) -> (result: Result<RuntimeValue, EvalError>)
        ensures
            outcome_view(result) == self@.relation(Operator::LessEqual, other@),
    {
        match (self, other) {
            (RuntimeValue::Number(x), RuntimeValue::Number(y)) => Ok(
                RuntimeValue::Boolean(number::less_equal(x, y)),
            ),
            _ => Err(EvalError::NotNumbers),
        }
    }

    /// `self > other`
    pub fn greater(self, other: RuntimeValue) -> (result: Result<RuntimeValue, EvalError>)
        ensures
            outcome_view(result) == self@.relation(Operator::Greater, other@),
    {
        match (self, other) {
            (RuntimeValue::Number(x), RuntimeValue::Number(y)) => Ok(
                RuntimeValue::Boolean(number::greater(x, y)),
            ),
            _ => Err(EvalError::NotNumbers),
        }
    }

    /// `self >= other`
    pub fn greater_equal(self, other: RuntimeValue) -> (result: Result<RuntimeValue, EvalError>)
        ensures
            outcome_view(result) == self@.relation(Operator::GreaterEqual, other@),
    {
        match (self, other) {
            (RuntimeValue::Number(x), RuntimeValue::Number(y)) => Ok(
                RuntimeValue::Boolean(number::greater_equal(x, y)),
            ),
            _ => Err(EvalError::NotNumbers),
        }
    }

    /// How the value is printed.
    pub fn text(&self) -> (fragment: Fragment)
        ensures
            fragment@ == self@.text(),
    {
        match self {
            RuntimeValue::Number(x) => Fragment::Number(*x),
            RuntimeValue::Boolean(b) => Fragment::Text(
                if *b {
                    String::from_str("true")
                } else {
                    String::from_str("false")
                },
            ),
            RuntimeValue::String(s) => Fragment::Text(s.clone()),
            RuntimeValue::Nil => Fragment::Text(String::from_str("nil")),
        }
    }
}

/// What an arithmetic operator gives where an operand is `nil`.
fn nil_result(op: Arithmetic) -> (value: RuntimeValue)
    ensures
        value@ == (if op == Arithmetic::Add {
            ValueView::Boolean(false)
        } else {
            ValueView::Nil
        }),
{
    match op {
        Arithmetic::Add => RuntimeValue::Boolean(false),
        _ => RuntimeValue::Nil,
    }
}

} // verus!
