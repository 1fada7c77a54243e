//! What expressions and statements mean.
//!
//! The meaning is given relative to an oracle: a function that answers every
//! question about numbers that the evaluator may put.  With the oracle that
//! decodes numerals and computes on doubles as the machine does, it is the
//! meaning of the program.
//!
//! Both operands of a binary operator are evaluated, the left one first;
//! `or` alone leaves its right operand alone where the left one counts as
//! true.

use crate::interpreter::{
    Arithmetic, EvalErrorView, Kind, ReductionView, RequestView, ValueView,
};
use crate::text::FragmentView;
use crate::parser::{ExpressionView, Operator, StatementView};
use vstd::prelude::*;

verus! {

/// An answer to every request.
pub type Oracle = spec_fn(RequestView) -> u64;

/// A value or a failure.
pub type Evaluated = Result<ValueView, EvalErrorView>;

/// What a reduction comes to once the oracle has answered its request.
pub open spec fn answered(reduced: Result<ReductionView, EvalErrorView>, oracle: Oracle) -> Evaluated {
    match reduced {
        Ok(ReductionView::Value(value)) => Ok(value),
        Ok(ReductionView::Ask(request)) => Ok(ValueView::Number(oracle(request))),
        Err(error) => Err(error),
    }
}

/// A value for a reduction.
pub open spec fn settled(value: Evaluated) -> Result<ReductionView, EvalErrorView> {
    match value {
        Ok(value) => Ok(ReductionView::Value(value)),
        Err(error) => Err(error),
    }
}

/// What a binary operator other than `or` makes of the values of its
/// operands.
pub open spec fn apply_binary(op: Operator, left: ValueView, right: ValueView) -> Result<
    ReductionView,
    EvalErrorView,
> {
    match op {
        Operator::Add => left.arithmetic(Arithmetic::Add, right),
        Operator::Subtract => left.arithmetic(Arithmetic::Subtract, right),
        Operator::Multiply => left.arithmetic(Arithmetic::Multiply, right),
        Operator::Divide => left.arithmetic(Arithmetic::Divide, right),
        Operator::EqualEqual => Ok(ReductionView::Value(ValueView::Boolean(left.equals(right)))),
        Operator::BangEqual => Ok(ReductionView::Value(ValueView::Boolean(!left.equals(right)))),
        Operator::Less | Operator::LessEqual | Operator::Greater | Operator::GreaterEqual => settled(
            left.relation(op, right),
        ),
        Operator::And => Ok(ReductionView::Value(left.and(right))),
        Operator::Or => Ok(
            ReductionView::Value(ValueView::Boolean(left.truthy() || right.truthy())),
        ),
        Operator::Power | Operator::Bang => Err(EvalErrorView::Unsupported(op)),
    }
}

/// What a unary operator makes of the value of its operand.
pub open spec fn apply_unary(op: Operator, operand: ValueView) -> Evaluated {
    match op {
        Operator::Subtract => operand.negate(),
        Operator::Bang => Ok(operand.not_and()),
        _ => Err(EvalErrorView::Unsupported(op)),
    }
}

/// The value of an expression.
pub open spec fn evaluate(
    e: ExpressionView,
    store: Map<Seq<char>, ValueView>,
    oracle: Oracle,
) -> Evaluated
    decreases e,
{
    match e {
        ExpressionView::Number(numeral) => Ok(
            ValueView::Number(oracle(RequestView::Decode(numeral))),
        ),
        ExpressionView::Boolean(b) => Ok(ValueView::Boolean(b)),
        ExpressionView::String(s) => Ok(ValueView::String(s)),
        ExpressionView::Nil => Ok(ValueView::Nil),
        ExpressionView::Identifier(name) => if store.contains_key(name) {
            Ok(store[name])
        } else {
            Err(EvalErrorView::Undefined(name))
        },
        ExpressionView::Group(inner) => evaluate(*inner, store, oracle),
        ExpressionView::Unary(op, operand) => match evaluate(*operand, store, oracle) {
            Ok(value) => apply_unary(op, value),
            Err(error) => Err(error),
        },
        ExpressionView::Binary(left, op, right) => match evaluate(*left, store, oracle) {
            Ok(a) => if op == Operator::Or && a.truthy() {
                Ok(ValueView::Boolean(true))
            } else {
                match evaluate(*right, store, oracle) {
                    Ok(b) => answered(apply_binary(op, a, b), oracle),
                    Err(error) => Err(error),
                }
            },
            Err(error) => Err(error),
        },
    }
}

/// What a run comes to: the values that it printed, in order, the variables
/// that it leaves, and the value or the failure that it ended with.  A
/// statement that ends well ends with `nil`.
pub struct Outcome {
    pub printed: Seq<ValueView>,
    pub store: Map<Seq<char>, ValueView>,
    pub result: Evaluated,
}

/// The outcome that follows on the printing of `printed`.
pub open spec fn after_printing(printed: Seq<ValueView>, outcome: Outcome) -> Outcome {
    Outcome { printed: printed + outcome.printed, store: outcome.store, result: outcome.result }
}

/// The outcome of a run that prints nothing and leaves the variables as they
/// are.
pub open spec fn quiet(store: Map<Seq<char>, ValueView>, result: Evaluated) -> Outcome {
    Outcome { printed: Seq::empty(), store, result }
}

/// The outcome of running a statement.
pub open spec fn execute(
    s: StatementView,
    store: Map<Seq<char>, ValueView>,
    oracle: Oracle,
) -> Outcome
    decreases s, 0nat,
{
    match s {
        StatementView::Print(e) => match evaluate(e, store, oracle) {
            Ok(value) => Outcome { printed: seq![value], store, result: Ok(ValueView::Nil) },
            Err(error) => quiet(store, Err(error)),
        },
        StatementView::ExprStmt(e) => match evaluate(e, store, oracle) {
            Ok(_) => quiet(store, Ok(ValueView::Nil)),
            Err(error) => quiet(store, Err(error)),
        },
        StatementView::Declaration(name, e) => match evaluate(e, store, oracle) {
            Ok(value) => quiet(store.insert(name, value), Ok(ValueView::Nil)),
            Err(error) => quiet(store, Err(error)),
        },
        StatementView::Program(statements) => execute_from(statements, 0, store, oracle),
    }
}

/// The outcome of running the statements from the index `from` on, one after
/// the other.  The first failure ends the run.
pub open spec fn execute_from(
    statements: Seq<StatementView>,
    from: int,
    store: Map<Seq<char>, ValueView>,
    oracle: Oracle,
) -> Outcome
    decreases statements, statements.len() - from,
{
    if 0 <= from < statements.len() {
        let first = execute(statements[from], store, oracle);
        if first.result.is_err() {
            first
        } else {
            after_printing(first.printed, execute_from(statements, from + 1, first.store, oracle))
        }
    } else {
        quiet(store, Ok(ValueView::Nil))
    }
}

/// The value of an arithmetic operation on two numbers is what the oracle
/// computes from the values of the operands, the left one first.
pub proof fn lemma_arithmetic_on_numbers(
    left: ExpressionView,
    op: Arithmetic,
    right: ExpressionView,
    store: Map<Seq<char>, ValueView>,
    oracle: Oracle,
    x: u64,
    y: u64,
)
    requires
        evaluate(left, store, oracle) == Ok::<ValueView, EvalErrorView>(ValueView::Number(x)),
        evaluate(right, store, oracle) == Ok::<ValueView, EvalErrorView>(ValueView::Number(y)),
    ensures
        evaluate(
            ExpressionView::Binary(Box::new(left), op.operator_spec(), Box::new(right)),
            store,
            oracle,
        ) == Ok::<ValueView, EvalErrorView>(
            ValueView::Number(oracle(RequestView::Compute(op, x, y))),
        ),
{
}

/// `+` on two strings joins them and gives a string, whatever the strings
/// are, and `+` on a string and a number, in either order, fails.  Joining
/// from the left and joining from the right give the same string.
pub proof fn lemma_concatenation(a: Seq<char>, b: Seq<char>, c: Seq<char>, x: u64)
    ensures
        ValueView::String(a).arithmetic(Arithmetic::Add, ValueView::String(b)) == Ok::<
            ReductionView,
            EvalErrorView,
        >(ReductionView::Value(ValueView::String(a + b))),
        ValueView::String(a).arithmetic(Arithmetic::Add, ValueView::Number(x)) == Err::<
            ReductionView,
            EvalErrorView,
        >(EvalErrorView::Operands(crate::parser::Operator::Add, Kind::String, Kind::Number)),
        ValueView::Number(x).arithmetic(Arithmetic::Add, ValueView::String(a)) == Err::<
            ReductionView,
            EvalErrorView,
        >(EvalErrorView::Operands(crate::parser::Operator::Add, Kind::Number, Kind::String)),
        (a + b) + c == a + (b + c),
{
    assert((a + b) + c =~= a + (b + c));
}

/// Every binary operator but `or` has both operands evaluated, the left one
/// first: it fails as the left operand fails, else as the right operand
/// fails, and only then applies its rule to the two values.
pub proof fn lemma_both_operands_are_evaluated(
    left: ExpressionView,
    op: Operator,
    right: ExpressionView,
    store: Map<Seq<char>, ValueView>,
    oracle: Oracle,
)
    requires
        op != Operator::Or,
    ensures
        evaluate(ExpressionView::Binary(Box::new(left), op, Box::new(right)), store, oracle)
            == match (evaluate(left, store, oracle), evaluate(right, store, oracle)) {
            (Err(error), _) => Err(error),
            (Ok(_), Err(error)) => Err(error),
            (Ok(a), Ok(b)) => answered(apply_binary(op, a, b), oracle),
        },
{
}

/// `and` never fails: numbers and booleans combine by their truth, where a
/// number counts as true if it is above zero, and two booleans give their
/// conjunction.
pub proof fn lemma_and(a: ValueView, b: ValueView, x: bool, y: bool)
    ensures
        apply_binary(Operator::And, a, b).is_ok(),
        (a.kind() == Kind::Number || a.kind() == Kind::Boolean) && (b.kind() == Kind::Number
            || b.kind() == Kind::Boolean) ==> a.and(b) == ValueView::Boolean(
            a.truthy() && b.truthy(),
        ),
        ValueView::Boolean(x).and(ValueView::Boolean(y)) == ValueView::Boolean(x && y),
{
}

/// `or` gives `true` over a left operand that counts as true, whatever the
/// right operand is, and whether the right operand counts as true otherwise.
pub proof fn lemma_or(
    left: ExpressionView,
    right: ExpressionView,
    store: Map<Seq<char>, ValueView>,
    oracle: Oracle,
)
    ensures
        evaluate(
            ExpressionView::Binary(Box::new(left), Operator::Or, Box::new(right)),
            store,
            oracle,
        ) == match evaluate(left, store, oracle) {
            Err(error) => Err(error),
            Ok(a) => if a.truthy() {
                Ok(ValueView::Boolean(true))
            } else {
                match evaluate(right, store, oracle) {
                    Err(error) => Err(error),
                    Ok(b) => Ok(ValueView::Boolean(b.truthy())),
                }
            },
        },
{
}

/// `nil` evaluates to nil, and nil is printed as `nil`.
pub proof fn lemma_nil(store: Map<Seq<char>, ValueView>, oracle: Oracle)
    ensures
        evaluate(ExpressionView::Nil, store, oracle) == Ok::<ValueView, EvalErrorView>(
            ValueView::Nil,
        ),
        ValueView::Nil.text() == FragmentView::Text("nil"@),
        execute(StatementView::Print(ExpressionView::Nil), store, oracle).printed == seq![
            ValueView::Nil,
        ],
{
}

/// Equality never fails: `==` and `!=` give a boolean for every pair of
/// values, and values of different kinds are unequal.
pub proof fn lemma_equality_is_total(a: ValueView, b: ValueView)
    ensures
        apply_binary(Operator::EqualEqual, a, b) == Ok::<ReductionView, EvalErrorView>(
            ReductionView::Value(ValueView::Boolean(a.equals(b))),
        ),
        apply_binary(Operator::BangEqual, a, b) == Ok::<ReductionView, EvalErrorView>(
            ReductionView::Value(ValueView::Boolean(!a.equals(b))),
        ),
        a.kind() != b.kind() ==> !a.equals(b),
{
}

/// Binding a name twice leaves it bound to the second value: after
/// `var a = e1; a = e2;` the name stands for the value of `e2`, taken over
/// the variables that the first statement left.
pub proof fn lemma_last_binding_wins(
    name: Seq<char>,
    first: ExpressionView,
    second: ExpressionView,
    store: Map<Seq<char>, ValueView>,
    oracle: Oracle,
    v1: ValueView,
    v2: ValueView,
)
    requires
        evaluate(first, store, oracle) == Ok::<ValueView, EvalErrorView>(v1),
        evaluate(second, store.insert(name, v1), oracle) == Ok::<ValueView, EvalErrorView>(v2),
    ensures
        execute(
            StatementView::Program(
                seq![
                    StatementView::Declaration(name, first),
                    StatementView::Declaration(name, second),
                ],
            ),
            store,
            oracle,
        ) == quiet(store.insert(name, v2), Ok(ValueView::Nil)),
{
    let statements = seq![
        StatementView::Declaration(name, first),
        StatementView::Declaration(name, second),
    ];
    let once = store.insert(name, v1);
    let twice = once.insert(name, v2);
    assert(twice =~= store.insert(name, v2));
    assert(execute(statements[0], store, oracle) == quiet(once, Ok(ValueView::Nil)));
    assert(execute(statements[1], once, oracle) == quiet(twice, Ok(ValueView::Nil)));
    let last = execute_from(statements, 2, twice, oracle);
    assert(last == quiet(twice, Ok(ValueView::Nil)));
    let second_on = execute_from(statements, 1, once, oracle);
    assert(second_on.printed =~= Seq::<ValueView>::empty());
    let first_on = execute_from(statements, 0, store, oracle);
    assert(first_on.printed =~= Seq::<ValueView>::empty());
}

} // verus!
