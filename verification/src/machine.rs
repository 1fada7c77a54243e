//! The evaluator: a machine that walks a syntax tree step by step.
//!
//! The machine works off a stack of tasks over a stack of values.  It does
//! everything itself but three things, for which it stops and hands its
//! caller an [`Action`]: decoding a numeral, computing on two numbers, and
//! printing a value.  The caller answers a request with
//! [`Evaluation::supply`] and goes on with [`Evaluation::step`].
//!
//! What a state of the machine comes to is its [`Evaluation::outcome`].  No
//! step changes it, and the machine starts in a state that comes to the
//! meaning of the tree it was given.

use crate::interpreter::{
    outcome_view, EvalError, EvalErrorView, Reduction, Request, RequestView, RuntimeValue,
    ValueView,
};
use crate::parser::{Expression, ExpressionView, Operator, Statement, StatementView};
use crate::semantics::{
    after_printing, answered, apply_binary, apply_unary, evaluate, execute, execute_from, quiet,
    settled, Oracle, Outcome,
};
use crate::variables::Variables;
use vstd::prelude::*;

verus! {

/// Something that is still to be done.
#[derive(Clone, Copy)]
pub enum Task<'a> {
    /// Evaluate the expression and push its value.
    Eval(&'a Expression),
    /// Apply the binary operator to the two values on top.
    Binary(Operator),
    /// Apply the unary operator to the value on top.
    Unary(Operator),
    /// The value on top is the left operand of an `or`: settle it, or go on
    /// to the right operand.
    OrElse(&'a Expression),
    /// Run the statement.
    Run(&'a Statement),
    /// Run the statements from the given index on.
    Block(&'a Vec<Statement>, usize),
    /// Print the value on top.
    Print,
    /// Bind the name to the value on top.
    Bind(&'a String),
    /// Drop the value on top.
    Discard,
}

/// Mathematical model of a [`Task`].
pub enum TaskView {
    Eval(ExpressionView),
    Binary(Operator),
    Unary(Operator),
    OrElse(ExpressionView),
    Run(StatementView),
    Block(Seq<StatementView>, int),
    Print,
    Bind(Seq<char>),
    Discard,
}

/// The models of the statements of a program.
pub open spec fn block_view(statements: Vec<Statement>) -> Seq<StatementView> {
    Statement::Program(statements)@->Program_0
}

impl<'a> View for Task<'a> {
    type V = TaskView;

    open spec fn view(&self) -> TaskView {
        match self {
            Task::Eval(e) => TaskView::Eval(e@),
            Task::Binary(op) => TaskView::Binary(*op),
            Task::Unary(op) => TaskView::Unary(*op),
            Task::OrElse(e) => TaskView::OrElse(e@),
            Task::Run(s) => TaskView::Run(s@),
            Task::Block(statements, from) => TaskView::Block(block_view(**statements), *from as int),
            Task::Print => TaskView::Print,
            Task::Bind(name) => TaskView::Bind(name@),
            Task::Discard => TaskView::Discard,
        }
    }
}

/// What the machine comes to from a state in which nothing is asked: `tasks`
/// are still to be done, the last one first, over the stack `values`, whose
/// top is its last element.
pub open spec fn finish(
    tasks: Seq<TaskView>,
    values: Seq<ValueView>,
    store: Map<Seq<char>, ValueView>,
    oracle: Oracle,
) -> Outcome
    decreases tasks.len(), 0nat,
{
    if tasks.len() == 0 {
        quiet(
            store,
            Ok(
                if values.len() > 0 {
                    values.last()
                } else {
                    ValueView::Nil
                },
            ),
        )
    } else {
        perform(tasks.last(), tasks.drop_last(), values, store, oracle)
    }
}

/// What the machine comes to when it does `task` and then `rest`.
pub open spec fn perform(
    task: TaskView,
    rest: Seq<TaskView>,
    values: Seq<ValueView>,
    store: Map<Seq<char>, ValueView>,
    oracle: Oracle,
) -> Outcome
    decreases rest.len(), 1nat,
{
    let top = values.last();
    let below = values.drop_last();
    match task {
        TaskView::Eval(e) => match evaluate(e, store, oracle) {
            Ok(value) => finish(rest, values.push(value), store, oracle),
            Err(error) => quiet(store, Err(error)),
        },
        TaskView::Binary(op) => match answered(apply_binary(op, below.last(), top), oracle) {
            Ok(value) => finish(rest, below.drop_last().push(value), store, oracle),
            Err(error) => quiet(store, Err(error)),
        },
        TaskView::Unary(op) => match apply_unary(op, top) {
            Ok(value) => finish(rest, below.push(value), store, oracle),
            Err(error) => quiet(store, Err(error)),
        },
        TaskView::OrElse(right) => if top.truthy() {
            finish(rest, below.push(ValueView::Boolean(true)), store, oracle)
        } else {
            match evaluate(right, store, oracle) {
                Ok(value) => finish(
                    rest,
                    below.push(ValueView::Boolean(value.truthy())),
                    store,
                    oracle,
                ),
                Err(error) => quiet(store, Err(error)),
            }
        },
        TaskView::Run(s) => {
            let first = execute(s, store, oracle);
            if first.result.is_err() {
                first
            } else {
                after_printing(first.printed, finish(rest, values, first.store, oracle))
            }
        },
        TaskView::Block(statements, from) => {
            let first = execute_from(statements, from, store, oracle);
            if first.result.is_err() {
                first
            } else {
                after_printing(first.printed, finish(rest, values, first.store, oracle))
            }
        },
        TaskView::Print => after_printing(seq![top], finish(rest, below, store, oracle)),
        TaskView::Bind(name) => finish(rest, below, store.insert(name, top), oracle),
        TaskView::Discard => finish(rest, below, store, oracle),
    }
}

/// Whether the tasks find the values that they take, over a stack of `depth`
/// values.
pub open spec fn balanced(tasks: Seq<TaskView>, depth: int) -> bool
    decreases tasks.len(),
{
    if tasks.len() == 0 {
        depth >= 0
    } else {
        let rest = tasks.drop_last();
        match tasks.last() {
            TaskView::Eval(_) => depth >= 0 && balanced(rest, depth + 1),
            TaskView::Binary(_) => depth >= 2 && balanced(rest, depth - 1),
            TaskView::Unary(_) | TaskView::OrElse(_) => depth >= 1 && balanced(rest, depth),
            TaskView::Run(_) => depth >= 0 && balanced(rest, depth),
            TaskView::Block(statements, from) => depth >= 0 && 0 <= from <= statements.len()
                && balanced(rest, depth),
            TaskView::Print | TaskView::Bind(_) | TaskView::Discard => depth >= 1 && balanced(
                rest,
                depth - 1,
            ),
        }
    }
}

/// The number of nodes of an expression.
pub open spec fn size(e: ExpressionView) -> nat
    decreases e,
{
    match e {
        ExpressionView::Binary(left, _, right) => 1 + size(*left) + size(*right),
        ExpressionView::Unary(_, operand) => 1 + size(*operand),
        ExpressionView::Group(inner) => 1 + size(*inner),
        _ => 1,
    }
}

/// A bound on the steps that running a statement takes.
pub open spec fn cost(s: StatementView) -> nat
    decreases s, 0nat,
{
    match s {
        StatementView::Print(e) => 2 + 4 * size(e),
        StatementView::ExprStmt(e) => 2 + 4 * size(e),
        StatementView::Declaration(_, e) => 2 + 4 * size(e),
        StatementView::Program(statements) => 2 + cost_from(statements, 0),
    }
}

/// A bound on the steps that running the statements from `from` on takes.
pub open spec fn cost_from(statements: Seq<StatementView>, from: int) -> nat
    decreases statements, statements.len() - from,
{
    if 0 <= from < statements.len() {
        1 + cost(statements[from]) + cost_from(statements, from + 1)
    } else {
        0
    }
}

/// A bound on the steps that a task takes.
pub open spec fn weight(task: TaskView) -> nat {
    match task {
        TaskView::Eval(e) => 4 * size(e),
        TaskView::Binary(_) => 2,
        TaskView::OrElse(right) => 3 + 4 * size(right),
        TaskView::Run(s) => cost(s),
        TaskView::Block(statements, from) => 1 + cost_from(statements, from),
        _ => 1,
    }
}

/// A bound on the steps that the tasks take.
pub open spec fn load(tasks: Seq<TaskView>) -> nat
    decreases tasks.len(),
{
    if tasks.len() == 0 {
        0
    } else {
        load(tasks.drop_last()) + weight(tasks.last())
    }
}

/// Doing the tasks is doing the last one and then the others.
pub proof fn lemma_top(
    rest: Seq<TaskView>,
    task: TaskView,
    values: Seq<ValueView>,
    store: Map<Seq<char>, ValueView>,
    oracle: Oracle,
)
    ensures
        finish(rest.push(task), values, store, oracle) == perform(
            task,
            rest,
            values,
            store,
            oracle,
        ),
{
    assert(rest.push(task).drop_last() =~= rest);
}

/// The load of the tasks is that of the last one and that of the others.
pub proof fn lemma_load_push(rest: Seq<TaskView>, task: TaskView)
    ensures
        load(rest.push(task)) == load(rest) + weight(task),
{
    assert(rest.push(task).drop_last() =~= rest);
}

/// The tasks with one more on top are balanced as the definition says.
pub proof fn lemma_balanced_push(rest: Seq<TaskView>, task: TaskView, depth: int)
    ensures
        balanced(rest.push(task), depth) == match task {
            TaskView::Eval(_) => depth >= 0 && balanced(rest, depth + 1),
            TaskView::Binary(_) => depth >= 2 && balanced(rest, depth - 1),
            TaskView::Unary(_) | TaskView::OrElse(_) => depth >= 1 && balanced(rest, depth),
            TaskView::Run(_) => depth >= 0 && balanced(rest, depth),
            TaskView::Block(statements, from) => depth >= 0 && 0 <= from <= statements.len()
                && balanced(rest, depth),
            TaskView::Print | TaskView::Bind(_) | TaskView::Discard => depth >= 1 && balanced(
                rest,
                depth - 1,
            ),
        },
{
    assert(rest.push(task).drop_last() =~= rest);
}

/// Evaluating a group is evaluating what is in it.
proof fn lemma_open_group(
    rest: Seq<TaskView>,
    inner: ExpressionView,
    values: Seq<ValueView>,
    store: Map<Seq<char>, ValueView>,
    oracle: Oracle,
)
    ensures
        finish(rest.push(TaskView::Eval(ExpressionView::Group(Box::new(inner)))), values, store, oracle)
            == finish(rest.push(TaskView::Eval(inner)), values, store, oracle),
{
    lemma_top(rest, TaskView::Eval(ExpressionView::Group(Box::new(inner))), values, store, oracle);
    lemma_top(rest, TaskView::Eval(inner), values, store, oracle);
}

/// Evaluating a unary operation is evaluating the operand and then applying
/// the operator.
proof fn lemma_open_unary(
    rest: Seq<TaskView>,
    op: Operator,
    operand: ExpressionView,
    values: Seq<ValueView>,
    store: Map<Seq<char>, ValueView>,
    oracle: Oracle,
)
    ensures
        finish(
            rest.push(TaskView::Eval(ExpressionView::Unary(op, Box::new(operand)))),
            values,
            store,
            oracle,
        ) == finish(
            rest.push(TaskView::Unary(op)).push(TaskView::Eval(operand)),
            values,
            store,
            oracle,
        ),
{
    lemma_top(
        rest,
        TaskView::Eval(ExpressionView::Unary(op, Box::new(operand))),
        values,
        store,
        oracle,
    );
    lemma_top(rest.push(TaskView::Unary(op)), TaskView::Eval(operand), values, store, oracle);
    match evaluate(operand, store, oracle) {
        Ok(value) => {
            lemma_top(rest, TaskView::Unary(op), values.push(value), store, oracle);
            assert(values.push(value).drop_last() =~= values);
        },
        Err(_) => {},
    }
}

/// Evaluating a binary operation other than `or` is evaluating the left
/// operand, then the right one, and then applying the operator.
proof fn lemma_open_binary(
    rest: Seq<TaskView>,
    left: ExpressionView,
    op: Operator,
    right: ExpressionView,
    values: Seq<ValueView>,
    store: Map<Seq<char>, ValueView>,
    oracle: Oracle,
)
    requires
        op != Operator::Or,
    ensures
        finish(
            rest.push(TaskView::Eval(ExpressionView::Binary(Box::new(left), op, Box::new(right)))),
            values,
            store,
            oracle,
        ) == finish(
            rest.push(TaskView::Binary(op)).push(TaskView::Eval(right)).push(TaskView::Eval(left)),
            values,
            store,
            oracle,
        ),
{
    let whole = TaskView::Eval(ExpressionView::Binary(Box::new(left), op, Box::new(right)));
    let apply = rest.push(TaskView::Binary(op));
    lemma_top(rest, whole, values, store, oracle);
    lemma_top(apply.push(TaskView::Eval(right)), TaskView::Eval(left), values, store, oracle);
    match evaluate(left, store, oracle) {
        Ok(a) => {
            lemma_top(apply, TaskView::Eval(right), values.push(a), store, oracle);
            match evaluate(right, store, oracle) {
                Ok(b) => {
                    let both = values.push(a).push(b);
                    lemma_top(rest, TaskView::Binary(op), both, store, oracle);
                    assert(both.drop_last() =~= values.push(a));
                    assert(both.drop_last().drop_last() =~= values);
                },
                Err(_) => {},
            }
        },
        Err(_) => {},
    }
}

/// Evaluating an `or` is evaluating the left operand and then settling the
/// `or` over its value.
proof fn lemma_open_or(
    rest: Seq<TaskView>,
    left: ExpressionView,
    right: ExpressionView,
    values: Seq<ValueView>,
    store: Map<Seq<char>, ValueView>,
    oracle: Oracle,
)
    ensures
        finish(
            rest.push(
                TaskView::Eval(
                    ExpressionView::Binary(Box::new(left), Operator::Or, Box::new(right)),
                ),
            ),
            values,
            store,
            oracle,
        ) == finish(
            rest.push(TaskView::OrElse(right)).push(TaskView::Eval(left)),
            values,
            store,
            oracle,
        ),
{
    let whole = TaskView::Eval(
        ExpressionView::Binary(Box::new(left), Operator::Or, Box::new(right)),
    );
    lemma_top(rest, whole, values, store, oracle);
    lemma_top(rest.push(TaskView::OrElse(right)), TaskView::Eval(left), values, store, oracle);
    match evaluate(left, store, oracle) {
        Ok(a) => {
            lemma_top(rest, TaskView::OrElse(right), values.push(a), store, oracle);
            assert(values.push(a).drop_last() =~= values);
        },
        Err(_) => {},
    }
}

/// Over a left operand that does not count as true, an `or` is settled by
/// evaluating the right operand and applying the operator.
proof fn lemma_or_else(
    rest: Seq<TaskView>,
    right: ExpressionView,
    values: Seq<ValueView>,
    store: Map<Seq<char>, ValueView>,
    oracle: Oracle,
)
    requires
        values.len() > 0,
        !values.last().truthy(),
    ensures
        finish(rest.push(TaskView::OrElse(right)), values, store, oracle) == finish(
            rest.push(TaskView::Binary(Operator::Or)).push(TaskView::Eval(right)),
            values,
            store,
            oracle,
        ),
{
    lemma_top(rest, TaskView::OrElse(right), values, store, oracle);
    lemma_top(
        rest.push(TaskView::Binary(Operator::Or)),
        TaskView::Eval(right),
        values,
        store,
        oracle,
    );
    match evaluate(right, store, oracle) {
        Ok(b) => {
            lemma_top(rest, TaskView::Binary(Operator::Or), values.push(b), store, oracle);
            assert(values.push(b).drop_last() =~= values);
        },
        Err(_) => {},
    }
}

/// A statement that ends well ends with `nil`.
pub proof fn lemma_execute_result(
    s: StatementView,
    store: Map<Seq<char>, ValueView>,
    oracle: Oracle,
)
    ensures
        execute(s, store, oracle).result.is_err() || execute(s, store, oracle).result == Ok::<
            ValueView,
            EvalErrorView,
        >(ValueView::Nil),
    decreases s, 0nat,
{
    match s {
        StatementView::Program(statements) => {
            lemma_execute_from_result(statements, 0, store, oracle);
        },
        _ => {},
    }
}

/// Statements that end well end with `nil`.
pub proof fn lemma_execute_from_result(
    statements: Seq<StatementView>,
    from: int,
    store: Map<Seq<char>, ValueView>,
    oracle: Oracle,
)
    ensures
        execute_from(statements, from, store, oracle).result.is_err() || execute_from(
            statements,
            from,
            store,
            oracle,
        ).result == Ok::<ValueView, EvalErrorView>(ValueView::Nil),
    decreases statements, statements.len() - from,
{
    if 0 <= from < statements.len() {
        lemma_execute_result(statements[from], store, oracle);
        let first = execute(statements[from], store, oracle);
        if !first.result.is_err() {
            lemma_execute_from_result(statements, from + 1, first.store, oracle);
        }
    }
}

/// Running a statement that holds an expression is evaluating the expression
/// and then doing with its value what the statement says.
proof fn lemma_open_statement(
    rest: Seq<TaskView>,
    s: StatementView,
    values: Seq<ValueView>,
    store: Map<Seq<char>, ValueView>,
    oracle: Oracle,
)
    requires
        !(s is Program),
    ensures
        finish(rest.push(TaskView::Run(s)), values, store, oracle) == finish(
            rest.push(
                match s {
                    StatementView::Print(_) => TaskView::Print,
                    StatementView::Declaration(name, _) => TaskView::Bind(name),
                    _ => TaskView::Discard,
                },
            ).push(
                TaskView::Eval(
                    match s {
                        StatementView::Print(e) => e,
                        StatementView::Declaration(_, e) => e,
                        StatementView::ExprStmt(e) => e,
                        _ => ExpressionView::Nil,
                    },
                ),
            ),
            values,
            store,
            oracle,
        ),
{
    let e = match s {
        StatementView::Print(e) => e,
        StatementView::Declaration(_, e) => e,
        StatementView::ExprStmt(e) => e,
        _ => ExpressionView::Nil,
    };
    let then = match s {
        StatementView::Print(_) => TaskView::Print,
        StatementView::Declaration(name, _) => TaskView::Bind(name),
        _ => TaskView::Discard,
    };
    lemma_top(rest, TaskView::Run(s), values, store, oracle);
    lemma_top(rest.push(then), TaskView::Eval(e), values, store, oracle);
    match evaluate(e, store, oracle) {
        Ok(value) => {
            lemma_top(rest, then, values.push(value), store, oracle);
            assert(values.push(value).drop_last() =~= values);
            let after = finish(
                rest,
                values,
                execute(s, store, oracle).store,
                oracle,
            );
            assert(Seq::<ValueView>::empty() + after.printed =~= after.printed);
        },
        Err(_) => {},
    }
}

/// Running a program is running its statements from the first one on.
proof fn lemma_open_program(
    rest: Seq<TaskView>,
    statements: Seq<StatementView>,
    values: Seq<ValueView>,
    store: Map<Seq<char>, ValueView>,
    oracle: Oracle,
)
    ensures
        finish(
            rest.push(TaskView::Run(StatementView::Program(statements))),
            values,
            store,
            oracle,
        ) == finish(rest.push(TaskView::Block(statements, 0)), values, store, oracle),
{
    lemma_top(rest, TaskView::Run(StatementView::Program(statements)), values, store, oracle);
    lemma_top(rest, TaskView::Block(statements, 0), values, store, oracle);
}

/// Running the statements from one on is running that one and then those
/// behind it; behind the last one nothing is left to run.
proof fn lemma_open_block(
    rest: Seq<TaskView>,
    statements: Seq<StatementView>,
    from: int,
    values: Seq<ValueView>,
    store: Map<Seq<char>, ValueView>,
    oracle: Oracle,
)
    requires
        0 <= from <= statements.len(),
    ensures
        finish(rest.push(TaskView::Block(statements, from)), values, store, oracle) == if from
            < statements.len() {
            finish(
                rest.push(TaskView::Block(statements, from + 1)).push(
                    TaskView::Run(statements[from]),
                ),
                values,
                store,
                oracle,
            )
        } else {
            finish(rest, values, store, oracle)
        },
{
    lemma_top(rest, TaskView::Block(statements, from), values, store, oracle);
    if from < statements.len() {
        let next = rest.push(TaskView::Block(statements, from + 1));
        lemma_top(next, TaskView::Run(statements[from]), values, store, oracle);
        let first = execute(statements[from], store, oracle);
        if !first.result.is_err() {
            lemma_top(rest, TaskView::Block(statements, from + 1), values, first.store, oracle);
            let others = execute_from(statements, from + 1, first.store, oracle);
            if !others.result.is_err() {
                let last = finish(rest, values, others.store, oracle);
                assert((first.printed + others.printed) + last.printed =~= first.printed + (
                others.printed + last.printed));
            }
        }
    } else {
        let after = finish(rest, values, store, oracle);
        assert(Seq::<ValueView>::empty() + after.printed =~= after.printed);
    }
}

/// A program has as many statements as its model.
proof fn lemma_block_len(statements: Vec<Statement>)
    ensures
        block_view(statements).len() == statements@.len(),
{
}

/// The statements of a program and their models go by the same indices.
proof fn lemma_block_view(statements: Vec<Statement>, i: int)
    requires
        0 <= i < statements@.len(),
    ensures
        block_view(statements).len() == statements@.len(),
        block_view(statements)[i] == statements@[i]@,
{
}

/// The models of a sequence of values.
pub open spec fn values_view(values: Seq<RuntimeValue>) -> Seq<ValueView> {
    Seq::new(values.len(), |i: int| values[i]@)
}

/// Whether the oracle gives every answer that `kernel` may give.
pub open spec fn answers_as<F: Fn(Request) -> u64>(oracle: Oracle, kernel: &F) -> bool {
    forall|request: Request, answer: u64| #[trigger]
        call_ensures(kernel, (request,), answer) ==> answer == oracle(request@)
}

/// What the machine hands its caller when it stops.
#[derive(Debug)]
pub enum Action {
    /// A question about numbers.  The machine goes on once it has been
    /// supplied with the answer.
    Ask(Request),
    /// A value that a print statement prints.
    Print(RuntimeValue),
    /// The run has ended well, with this value.  A statement ends with `nil`.
    Done(RuntimeValue),
    /// The run has ended with this failure.
    Failed(EvalError),
}

/// A run of the machine: what is still to be done, the values at hand, and
/// the request that is waiting for its answer, if one is.
pub struct Evaluation<'a> {
    tasks: Vec<Task<'a>>,
    values: Vec<RuntimeValue>,
    pending: Option<Request>,
}

/// What a binary operator other than `or` makes of the values of its
/// operands.
fn binary(op: Operator, left: RuntimeValue, right: RuntimeValue) -> (result: Result<
    Reduction,
    EvalError,
>)
    ensures
        outcome_view(result) == apply_binary(op, left@, right@),
{
    match op {
        Operator::Add => left.add(right),
        Operator::EqualEqual => Ok(Reduction::Value(RuntimeValue::Boolean(left == right))),
        Operator::Multiply => left.multiply(right),
        Operator::Divide => left.divide(right),
        Operator::Subtract => left.subtract(right),
        Operator::Power => Err(EvalError::Unsupported(op)),
        Operator::BangEqual => Ok(Reduction::Value(RuntimeValue::Boolean(left != right))),
        Operator::LessEqual => value_of(left.less_than_equal(right)),
        Operator::Less => value_of(left.less_than(right)),
        Operator::Greater => value_of(left.greater(right)),
        Operator::GreaterEqual => value_of(left.greater_equal(right)),
        Operator::And => value_of(left.and(right)),
        Operator::Or => Ok(
            Reduction::Value(RuntimeValue::Boolean(left.truthy() || right.truthy())),
        ),
        Operator::Bang => Err(EvalError::Unsupported(op)),
    }
}

/// What a unary operator makes of the value of its operand.
fn unary(op: Operator, operand: RuntimeValue) -> (result: Result<RuntimeValue, EvalError>)
    ensures
        outcome_view(result) == apply_unary(op, operand@),
{
    match op {
        Operator::Subtract => operand.negate(),
        Operator::Bang => operand.not_and(),
        _ => Err(EvalError::Unsupported(op)),
    }
}

/// A value as a reduction.
fn value_of(value: Result<RuntimeValue, EvalError>) -> (result: Result<Reduction, EvalError>)
    ensures
        outcome_view(result) == settled(outcome_view(value)),
{
    match value {
        Ok(value) => Ok(Reduction::Value(value)),
        Err(error) => Err(error),
    }
}

/// A copy of a request.
fn copy_request(request: &Request) -> (copy: Request)
    ensures
        copy@ == request@,
{
    match request {
        Request::Decode(numeral) => Request::Decode(numeral.clone()),
        Request::Compute(op, left, right) => Request::Compute(*op, *left, *right),
    }
}

impl<'a> Evaluation<'a> {
    /// What is still to be done, the next task last.
    pub closed spec fn tasks(self) -> Seq<TaskView> {
        Seq::new(self.tasks@.len(), |i: int| self.tasks@[i]@)
    }

    /// The values at hand, the top of the stack last.
    pub closed spec fn values(self) -> Seq<ValueView> {
        Seq::new(self.values@.len(), |i: int| self.values@[i]@)
    }

    /// The request that is waiting for its answer.
    pub closed spec fn asking(self) -> Option<RequestView> {
        match self.pending {
            Some(request) => Some(request@),
            None => None,
        }
    }

    /// The values at hand once the oracle has answered the request that is
    /// waiting, if one is.
    pub open spec fn values_with(self, oracle: Oracle) -> Seq<ValueView> {
        match self.asking() {
            Some(request) => self.values().push(ValueView::Number(oracle(request))),
            None => self.values(),
        }
    }

    /// Every task finds the values that it takes.
    pub open spec fn wf(self) -> bool {
        balanced(
            self.tasks(),
            self.values().len() + if self.asking().is_some() {
                1int
            } else {
                0int
            },
        )
    }

    /// What the run comes to from here, over the given variables, if every
    /// request is answered as the oracle answers it.
    pub open spec fn outcome(self, store: Map<Seq<char>, ValueView>, oracle: Oracle) -> Outcome {
        finish(self.tasks(), self.values_with(oracle), store, oracle)
    }

    /// A bound on the number of actions that the machine hands out from
    /// here.
    pub open spec fn fuel(self) -> nat {
        load(self.tasks()) + if self.asking().is_some() {
            1nat
        } else {
            0nat
        }
    }

    /// Whether the run has ended.
    pub open spec fn finished(self) -> bool {
        self.tasks().len() == 0 && self.values().len() == 0 && self.asking().is_none()
    }

    fn push_task(&mut self, task: Task<'a>)
        ensures
            final(self).tasks() == old(self).tasks().push(task@),
            final(self).values() == old(self).values(),
            final(self).pending == old(self).pending,
    {
        self.tasks.push(task);
        assert(self.tasks() =~= old(self).tasks().push(task@));
    }

    fn pop_task(&mut self)
        requires
            old(self).tasks().len() > 0,
        ensures
            final(self).tasks() == old(self).tasks().drop_last(),
            final(self).values() == old(self).values(),
            final(self).pending == old(self).pending,
    {
        self.tasks.pop();
        assert(self.tasks() =~= old(self).tasks().drop_last());
    }

    /// Puts `task` in the place of the next task.
    fn replace_task(&mut self, task: Task<'a>)
        requires
            old(self).tasks().len() > 0,
        ensures
            final(self).tasks() == old(self).tasks().drop_last().push(task@),
            final(self).values() == old(self).values(),
            final(self).pending == old(self).pending,
    {
        let n: usize = self.tasks.len();
        self.tasks.set(n - 1, task);
        assert(self.tasks() =~= old(self).tasks().drop_last().push(task@));
    }

    fn push_value(&mut self, value: RuntimeValue)
        ensures
            final(self).values() == old(self).values().push(value@),
            final(self).tasks() == old(self).tasks(),
            final(self).pending == old(self).pending,
    {
        self.values.push(value);
        assert(self.values() =~= old(self).values().push(value@));
    }

    fn pop_value(&mut self) -> (value: RuntimeValue)
        requires
            old(self).values().len() > 0,
        ensures
            value@ == old(self).values().last(),
            final(self).values() == old(self).values().drop_last(),
            final(self).tasks() == old(self).tasks(),
            final(self).pending == old(self).pending,
    {
        let value = self.values.pop().unwrap();
        assert(self.values() =~= old(self).values().drop_last());
        value
    }

    /// Ends the run.
    fn halt(&mut self)
        ensures
            final(self).finished(),
            final(self).wf(),
            final(self).fuel() == 0,
    {
        self.tasks = Vec::new();
        self.values = Vec::new();
        self.pending = None;
    }

    /// A run that has one task to do.
    fn start(task: Task<'a>) -> (run: Evaluation<'a>)
        ensures
            run.tasks() == seq![task@],
            run.values() == Seq::<ValueView>::empty(),
            run.asking().is_none(),
    {
        let mut tasks: Vec<Task<'a>> = Vec::new();
        tasks.push(task);
        let run = Evaluation { tasks, values: Vec::new(), pending: None };
        assert(run.tasks() =~= seq![task@]);
        assert(run.values() =~= Seq::<ValueView>::empty());
        run
    }

    /// Whether the value on top counts as true.
    fn top_truthy(&self) -> (b: bool)
        requires
            self.values().len() > 0,
        ensures
            b == self.values().last().truthy(),
    {
        let n: usize = self.values.len();
        self.values[n - 1].truthy()
    }

    /// The next task.
    fn top_task(&self) -> (task: Task<'a>)
        requires
            self.tasks().len() > 0,
        ensures
            self.tasks() == self.tasks().drop_last().push(task@),
    {
        let n: usize = self.tasks.len();
        let task = self.tasks[n - 1];
        assert(self.tasks() =~= self.tasks().drop_last().push(task@));
        task
    }

    /// Whether nothing is left to do.
    fn idle(&self) -> (b: bool)
        ensures
            b == (self.tasks().len() == 0),
    {
        self.tasks.len() == 0
    }

    /// Whether the machine went from `before` to `self` without handing
    /// anything out: it has come nearer to the end, and comes to what it came
    /// to before.
    pub open spec fn follows(
        self,
        store: Map<Seq<char>, ValueView>,
        before: Evaluation<'a>,
        store_before: Map<Seq<char>, ValueView>,
    ) -> bool {
        &&& self.wf()
        &&& self.asking().is_none()
        &&& self.fuel() < before.fuel()
        &&& forall|oracle: Oracle| #[trigger]
            finish(self.tasks(), self.values(), store, oracle) == finish(
                before.tasks(),
                before.values(),
                store_before,
                oracle,
            )
    }

    /// Whether `action` is what the machine hands out on its way from
    /// `before` to `self`, for every way of answering its requests:
    ///
    /// - with a request, it comes to what it came to before, once the request
    ///   is answered;
    /// - with a value to print, it came to the printing of that value and
    ///   then to what it comes to now;
    /// - with the end of the run, it came to that end, and nothing is left.
    pub open spec fn hands(
        self,
        store: Map<Seq<char>, ValueView>,
        before: Evaluation<'a>,
        store_before: Map<Seq<char>, ValueView>,
        action: Action,
    ) -> bool {
        &&& self.wf()
        &&& self.fuel() <= before.fuel()
        &&& match action {
            Action::Ask(request) => {
                &&& self.asking() == Some(request@)
                &&& forall|oracle: Oracle| #[trigger]
                    self.outcome(store, oracle) == before.outcome(store_before, oracle)
            },
            Action::Print(value) => {
                &&& self.asking().is_none()
                &&& self.fuel() < before.fuel()
                &&& forall|oracle: Oracle|
                    before.outcome(store_before, oracle) == after_printing(
                        seq![value@],
                        #[trigger] self.outcome(store, oracle),
                    )
            },
            Action::Done(value) => {
                &&& self.finished()
                &&& forall|oracle: Oracle| #[trigger]
                    before.outcome(store_before, oracle) == quiet(store, Ok(value@))
            },
            Action::Failed(error) => {
                &&& self.finished()
                &&& forall|oracle: Oracle| #[trigger]
                    before.outcome(store_before, oracle) == quiet(store, Err(error@))
            },
        }
    }

    /// Pushes the value of an expression that has its value at hand.
    fn settle(&mut self, value: RuntimeValue, Ghost(store): Ghost<Map<Seq<char>, ValueView>>)
        requires
            old(self).wf(),
            old(self).asking().is_none(),
            old(self).tasks().len() > 0,
            old(self).tasks().last() is Eval,
            forall|oracle: Oracle|
                evaluate(old(self).tasks().last()->Eval_0, store, oracle) == Ok::<
                    ValueView,
                    EvalErrorView,
                >(value@),
        ensures
            final(self).follows(store, *old(self), store),
    {
        let ghost rest = self.tasks().drop_last();
        let ghost task = self.tasks().last();
        let ghost values = self.values();
        proof {
            assert(self.tasks() =~= rest.push(task));
            lemma_balanced_push(rest, task, values.len() as int);
            lemma_load_push(rest, task);
        }
        self.pop_task();
        self.push_value(value);
        proof {
            assert forall|oracle: Oracle| #[trigger]
                finish(self.tasks(), self.values(), store, oracle) == finish(
                    old(self).tasks(),
                    old(self).values(),
                    store,
                    oracle,
                ) by {
                lemma_top(rest, task, values, store, oracle);
            }
        }
    }

    /// Ends the run with a failure.
    fn fail(&mut self, error: EvalError, Ghost(store): Ghost<Map<Seq<char>, ValueView>>) -> (action:
        Action)
        requires
            old(self).wf(),
            old(self).asking().is_none(),
            forall|oracle: Oracle| #[trigger]
                finish(old(self).tasks(), old(self).values(), store, oracle) == quiet(
                    store,
                    Err(error@),
                ),
        ensures
            final(self).hands(store, *old(self), store, action),
            action is Failed,
    {
        self.halt();
        proof {
            assert forall|oracle: Oracle| #[trigger]
                old(self).outcome(store, oracle) == quiet(store, Err(error@)) by {
                assert(old(self).outcome(store, oracle) == finish(
                    old(self).tasks(),
                    old(self).values(),
                    store,
                    oracle,
                ));
            }
        }
        Action::Failed(error)
    }

    /// Does the next task, which is to evaluate `e`.
    fn expand(&mut self, e: &'a Expression, variables: &Variables) -> (action: Option<Action>)
        requires
            old(self).wf(),
            old(self).asking().is_none(),
            old(self).tasks().len() > 0,
            old(self).tasks().last() == TaskView::Eval(e@),
        ensures
            match action {
                Some(action) => final(self).hands(variables@, *old(self), variables@, action),
                None => final(self).follows(variables@, *old(self), variables@),
            },
    {
        let ghost rest = self.tasks().drop_last();
        let ghost task = TaskView::Eval(e@);
        let ghost values = self.values();
        let ghost store = variables@;
        let ghost depth = values.len() as int;
        proof {
            assert(self.tasks() =~= rest.push(task));
            lemma_balanced_push(rest, task, depth);
            lemma_load_push(rest, task);
        }
        match e {
            Expression::Number(numeral) => {
                self.pop_task();
                self.pending = Some(Request::Decode(numeral.clone()));
                proof {
                    assert forall|oracle: Oracle| #[trigger]
                        self.outcome(store, oracle) == old(self).outcome(store, oracle) by {
                        lemma_top(rest, task, values, store, oracle);
                    }
                }
                Some(Action::Ask(Request::Decode(numeral.clone())))
            },
            Expression::Boolean(b) => {
                self.settle(RuntimeValue::Boolean(*b), Ghost(store));
                None
            },
            Expression::String(s) => {
                self.settle(RuntimeValue::String(s.clone()), Ghost(store));
                None
            },
            Expression::Nil => {
                self.settle(RuntimeValue::Nil, Ghost(store));
                None
            },
            Expression::Identifier(name) => {
                match variables.get(name) {
                    Some(found) => {
                        self.settle(found.copy(), Ghost(store));
                        None
                    },
                    None => {
                        let error = EvalError::Undefined(name.clone());
                        proof {
                            assert forall|oracle: Oracle| #[trigger]
                                finish(self.tasks(), self.values(), store, oracle) == quiet(
                                    store,
                                    Err(error@),
                                ) by {
                                lemma_top(rest, task, values, store, oracle);
                            }
                        }
                        Some(self.fail(error, Ghost(store)))
                    },
                }
            },
            Expression::Group(inner) => {
                self.replace_task(Task::Eval(&**inner));
                proof {
                    lemma_balanced_push(rest, TaskView::Eval(inner@), depth);
                    lemma_load_push(rest, TaskView::Eval(inner@));
                    assert forall|oracle: Oracle| #[trigger]
                        finish(self.tasks(), self.values(), store, oracle) == finish(
                            old(self).tasks(),
                            old(self).values(),
                            store,
                            oracle,
                        ) by {
                        lemma_open_group(rest, inner@, values, store, oracle);
                    }
                }
                None
            },
            Expression::Unary(op, operand) => {
                self.replace_task(Task::Unary(*op));
                self.push_task(Task::Eval(&**operand));
                proof {
                    let apply = rest.push(TaskView::Unary(*op));
                    lemma_balanced_push(rest, TaskView::Unary(*op), depth + 1);
                    lemma_balanced_push(apply, TaskView::Eval(operand@), depth);
                    lemma_load_push(rest, TaskView::Unary(*op));
                    lemma_load_push(apply, TaskView::Eval(operand@));
                    assert forall|oracle: Oracle| #[trigger]
                        finish(self.tasks(), self.values(), store, oracle) == finish(
                            old(self).tasks(),
                            old(self).values(),
                            store,
                            oracle,
                        ) by {
                        lemma_open_unary(rest, *op, operand@, values, store, oracle);
                    }
                }
                None
            },
            Expression::Binary(left, op, right) => {
                if *op == Operator::Or {
                    self.replace_task(Task::OrElse(&**right));
                    self.push_task(Task::Eval(&**left));
                    proof {
                        let then = rest.push(TaskView::OrElse(right@));
                        lemma_balanced_push(rest, TaskView::OrElse(right@), depth + 1);
                        lemma_balanced_push(then, TaskView::Eval(left@), depth);
                        lemma_load_push(rest, TaskView::OrElse(right@));
                        lemma_load_push(then, TaskView::Eval(left@));
                        assert forall|oracle: Oracle| #[trigger]
                            finish(self.tasks(), self.values(), store, oracle) == finish(
                                old(self).tasks(),
                                old(self).values(),
                                store,
                                oracle,
                            ) by {
                            lemma_open_or(rest, left@, right@, values, store, oracle);
                        }
                    }
                } else {
                    self.replace_task(Task::Binary(*op));
                    self.push_task(Task::Eval(&**right));
                    self.push_task(Task::Eval(&**left));
                    proof {
                        let apply = rest.push(TaskView::Binary(*op));
                        let second = apply.push(TaskView::Eval(right@));
                        lemma_balanced_push(rest, TaskView::Binary(*op), depth + 2);
                        lemma_balanced_push(apply, TaskView::Eval(right@), depth + 1);
                        lemma_balanced_push(second, TaskView::Eval(left@), depth);
                        lemma_load_push(rest, TaskView::Binary(*op));
                        lemma_load_push(apply, TaskView::Eval(right@));
                        lemma_load_push(second, TaskView::Eval(left@));
                        assert forall|oracle: Oracle| #[trigger]
                            finish(self.tasks(), self.values(), store, oracle) == finish(
                                old(self).tasks(),
                                old(self).values(),
                                store,
                                oracle,
                            ) by {
                            lemma_open_binary(rest, left@, *op, right@, values, store, oracle);
                        }
                    }
                }
                None
            },
        }
    }

    /// Does the next task, which is to apply an operator to the values on
    /// top, or to settle an `or`.
    fn apply(&mut self, task: Task<'a>, Ghost(store): Ghost<Map<Seq<char>, ValueView>>) -> (action:
        Option<Action>)
        requires
            old(self).wf(),
            old(self).asking().is_none(),
            old(self).tasks().len() > 0,
            old(self).tasks().last() == task@,
            task is Binary || task is Unary || task is OrElse,
        ensures
            match action {
                Some(action) => final(self).hands(store, *old(self), store, action),
                None => final(self).follows(store, *old(self), store),
            },
    {
        let ghost rest = self.tasks().drop_last();
        let ghost values = self.values();
        let ghost depth = values.len() as int;
        proof {
            assert(self.tasks() =~= rest.push(task@));
            lemma_balanced_push(rest, task@, depth);
            lemma_load_push(rest, task@);
        }
        match task {
            Task::Binary(op) => {
                let right = self.pop_value();
                let left = self.pop_value();
                match binary(op, left, right) {
                    Ok(Reduction::Value(value)) => {
                        self.pop_task();
                        self.push_value(value);
                        proof {
                            assert forall|oracle: Oracle| #[trigger]
                                finish(self.tasks(), self.values(), store, oracle) == finish(
                                    old(self).tasks(),
                                    old(self).values(),
                                    store,
                                    oracle,
                                ) by {
                                lemma_top(rest, task@, values, store, oracle);
                            }
                        }
                        None
                    },
                    Ok(Reduction::Ask(request)) => {
                        self.pop_task();
                        self.pending = Some(copy_request(&request));
                        proof {
                            assert forall|oracle: Oracle| #[trigger]
                                self.outcome(store, oracle) == old(self).outcome(store, oracle) by {
                                lemma_top(rest, task@, values, store, oracle);
                            }
                        }
                        Some(Action::Ask(request))
                    },
                    Err(error) => {
                        proof {
                            assert forall|oracle: Oracle| #[trigger]
                                finish(old(self).tasks(), old(self).values(), store, oracle)
                                    == quiet(store, Err(error@)) by {
                                lemma_top(rest, task@, values, store, oracle);
                            }
                        }
                        self.halt();
                        Some(Action::Failed(error))
                    },
                }
            },
            Task::Unary(op) => {
                let operand = self.pop_value();
                match unary(op, operand) {
                    Ok(value) => {
                        self.pop_task();
                        self.push_value(value);
                        proof {
                            assert forall|oracle: Oracle| #[trigger]
                                finish(self.tasks(), self.values(), store, oracle) == finish(
                                    old(self).tasks(),
                                    old(self).values(),
                                    store,
                                    oracle,
                                ) by {
                                lemma_top(rest, task@, values, store, oracle);
                            }
                        }
                        None
                    },
                    Err(error) => {
                        proof {
                            assert forall|oracle: Oracle| #[trigger]
                                finish(old(self).tasks(), old(self).values(), store, oracle)
                                    == quiet(store, Err(error@)) by {
                                lemma_top(rest, task@, values, store, oracle);
                            }
                        }
                        self.halt();
                        Some(Action::Failed(error))
                    },
                }
            },
            Task::OrElse(right) => {
                if self.top_truthy() {
                    self.pop_value();
                    self.pop_task();
                    self.push_value(RuntimeValue::Boolean(true));
                    proof {
                        assert forall|oracle: Oracle| #[trigger]
                            finish(self.tasks(), self.values(), store, oracle) == finish(
                                old(self).tasks(),
                                old(self).values(),
                                store,
                                oracle,
                            ) by {
                            lemma_top(rest, task@, values, store, oracle);
                        }
                    }
                } else {
                    self.replace_task(Task::Binary(Operator::Or));
                    self.push_task(Task::Eval(right));
                    proof {
                        let apply = rest.push(TaskView::Binary(Operator::Or));
                        lemma_balanced_push(rest, TaskView::Binary(Operator::Or), depth + 1);
                        lemma_balanced_push(apply, TaskView::Eval(right@), depth);
                        lemma_load_push(rest, TaskView::Binary(Operator::Or));
                        lemma_load_push(apply, TaskView::Eval(right@));
                        assert forall|oracle: Oracle| #[trigger]
                            finish(self.tasks(), self.values(), store, oracle) == finish(
                                old(self).tasks(),
                                old(self).values(),
                                store,
                                oracle,
                            ) by {
                            lemma_or_else(rest, right@, values, store, oracle);
                        }
                    }
                }
                None
            },
            _ => None,
        }
    }

    /// Does the next task, which is to run a statement or the statements of
    /// a program.
    fn open(&mut self, task: Task<'a>, Ghost(store): Ghost<Map<Seq<char>, ValueView>>)
        requires
            old(self).wf(),
            old(self).asking().is_none(),
            old(self).tasks().len() > 0,
            old(self).tasks().last() == task@,
            task is Run || task is Block,
        ensures
            final(self).follows(store, *old(self), store),
    {
        let ghost rest = self.tasks().drop_last();
        let ghost values = self.values();
        let ghost depth = values.len() as int;
        proof {
            assert(self.tasks() =~= rest.push(task@));
            lemma_balanced_push(rest, task@, depth);
            lemma_load_push(rest, task@);
        }
        match task {
            Task::Run(s) => {
                let (then, e) = match s {
                    Statement::Print(e) => (Task::Print, &**e),
                    Statement::ExprStmt(e) => (Task::Discard, &**e),
                    Statement::Declaration(name, e) => (Task::Bind(name), &**e),
                    Statement::Program(statements) => {
                        self.replace_task(Task::Block(statements, 0));
                        proof {
                            let block = TaskView::Block(block_view(*statements), 0);
                            lemma_balanced_push(rest, block, depth);
                            lemma_load_push(rest, block);
                            assert forall|oracle: Oracle| #[trigger]
                                finish(self.tasks(), self.values(), store, oracle) == finish(
                                    old(self).tasks(),
                                    old(self).values(),
                                    store,
                                    oracle,
                                ) by {
                                lemma_open_program(
                                    rest,
                                    block_view(*statements),
                                    values,
                                    store,
                                    oracle,
                                );
                            }
                        }
                        return ;
                    },
                };
                self.replace_task(then);
                self.push_task(Task::Eval(e));
                proof {
                    lemma_balanced_push(rest, then@, depth + 1);
                    lemma_balanced_push(rest.push(then@), TaskView::Eval(e@), depth);
                    lemma_load_push(rest, then@);
                    lemma_load_push(rest.push(then@), TaskView::Eval(e@));
                    assert forall|oracle: Oracle| #[trigger]
                        finish(self.tasks(), self.values(), store, oracle) == finish(
                            old(self).tasks(),
                            old(self).values(),
                            store,
                            oracle,
                        ) by {
                        lemma_open_statement(rest, s@, values, store, oracle);
                    }
                }
            },
            Task::Block(statements, from) => {
                proof {
                    lemma_block_len(*statements);
                }
                if from < statements.len() {
                    self.replace_task(Task::Block(statements, from + 1));
                    self.push_task(Task::Run(&statements[from]));
                    proof {
                        lemma_block_view(*statements, from as int);
                        let block = TaskView::Block(block_view(*statements), from + 1);
                        let first = TaskView::Run(statements[from as int]@);
                        lemma_balanced_push(rest, block, depth);
                        lemma_balanced_push(rest.push(block), first, depth);
                        lemma_load_push(rest, block);
                        lemma_load_push(rest.push(block), first);
                        assert forall|oracle: Oracle| #[trigger]
                            finish(self.tasks(), self.values(), store, oracle) == finish(
                                old(self).tasks(),
                                old(self).values(),
                                store,
                                oracle,
                            ) by {
                            lemma_open_block(
                                rest,
                                block_view(*statements),
                                from as int,
                                values,
                                store,
                                oracle,
                            );
                        }
                    }
                } else {
                    self.pop_task();
                    proof {
                        assert forall|oracle: Oracle| #[trigger]
                            finish(self.tasks(), self.values(), store, oracle) == finish(
                                old(self).tasks(),
                                old(self).values(),
                                store,
                                oracle,
                            ) by {
                            lemma_open_block(
                                rest,
                                block_view(*statements),
                                from as int,
                                values,
                                store,
                                oracle,
                            );
                        }
                    }
                }
            },
            _ => {},
        }
    }

    /// Does the next task, which is to do something with the value on top:
    /// print it, bind a name to it, or drop it.
    fn consume(&mut self, task: Task<'a>, variables: &mut Variables) -> (action: Option<Action>)
        requires
            old(self).wf(),
            old(self).asking().is_none(),
            old(self).tasks().len() > 0,
            old(self).tasks().last() == task@,
            task is Print || task is Bind || task is Discard,
        ensures
            match action {
                Some(action) => final(self).hands(
                    final(variables)@,
                    *old(self),
                    old(variables)@,
                    action,
                ),
                None => final(self).follows(final(variables)@, *old(self), old(variables)@),
            },
    {
        let ghost rest = self.tasks().drop_last();
        let ghost values = self.values();
        let ghost store = variables@;
        proof {
            assert(self.tasks() =~= rest.push(task@));
            lemma_balanced_push(rest, task@, values.len() as int);
            lemma_load_push(rest, task@);
        }
        let value = self.pop_value();
        self.pop_task();
        match task {
            Task::Print => {
                proof {
                    assert forall|oracle: Oracle|
                        old(self).outcome(store, oracle) == after_printing(
                            seq![value@],
                            #[trigger] self.outcome(store, oracle),
                        ) by {
                        lemma_top(rest, task@, values, store, oracle);
                    }
                }
                Some(Action::Print(value))
            },
            Task::Bind(name) => {
                variables.insert(name.clone(), value);
                proof {
                    assert forall|oracle: Oracle| #[trigger]
                        finish(self.tasks(), self.values(), variables@, oracle) == finish(
                            old(self).tasks(),
                            old(self).values(),
                            store,
                            oracle,
                        ) by {
                        lemma_top(rest, task@, values, store, oracle);
                    }
                }
                None
            },
            _ => {
                proof {
                    assert forall|oracle: Oracle| #[trigger]
                        finish(self.tasks(), self.values(), variables@, oracle) == finish(
                            old(self).tasks(),
                            old(self).values(),
                            store,
                            oracle,
                        ) by {
                        lemma_top(rest, task@, values, store, oracle);
                    }
                }
                None
            },
        }
    }

    /// Ends a run in which nothing is left to do.
    fn conclude(&mut self, Ghost(store): Ghost<Map<Seq<char>, ValueView>>) -> (action: Action)
        requires
            old(self).wf(),
            old(self).asking().is_none(),
            old(self).tasks().len() == 0,
        ensures
            final(self).hands(store, *old(self), store, action),
    {
        let value = if self.values.len() > 0 {
            self.pop_value()
        } else {
            RuntimeValue::Nil
        };
        self.halt();
        proof {
            assert forall|oracle: Oracle| #[trigger]
                old(self).outcome(store, oracle) == quiet(store, Ok(value@)) by {
                assert(old(self).values_with(oracle) == old(self).values());
            }
        }
        Action::Done(value)
    }

    /// Goes on with the run until something is to be handed out, and hands it
    /// out.
    ///
    /// While a request is waiting for its answer, that request is handed out
    /// again.  A run that has ended is done, with `nil`.
    pub fn step(&mut self, variables: &mut Variables) -> (action: Action)
        requires
            old(self).wf(),
        ensures
            final(self).hands(final(variables)@, *old(self), old(variables)@, action),
    {
        match &self.pending {
            Some(request) => {
                return Action::Ask(copy_request(request));
            },
            None => {},
        }
        loop
            invariant
                self.wf(),
                self.asking().is_none(),
                old(self).asking().is_none(),
                self.fuel() <= old(self).fuel(),
                forall|oracle: Oracle| #[trigger]
                    finish(self.tasks(), self.values(), variables@, oracle) == finish(
                        old(self).tasks(),
                        old(self).values(),
                        old(variables)@,
                        oracle,
                    ),
            decreases self.fuel(),
        {
            let ghost before = *self;
            let ghost store = variables@;
            if self.idle() {
                let action = self.conclude(Ghost(store));
                proof {
                    lemma_hands_on(*self, variables@, before, store, *old(self), old(variables)@, action);
                }
                return action;
            }
            let task = self.top_task();
            let handed = match task {
                Task::Eval(e) => self.expand(e, variables),
                Task::Binary(_) | Task::Unary(_) | Task::OrElse(_) => self.apply(task, Ghost(store)),
                Task::Run(_) | Task::Block(_, _) => {
                    self.open(task, Ghost(store));
                    None
                },
                Task::Print | Task::Bind(_) | Task::Discard => self.consume(task, variables),
            };
            match handed {
                Some(action) => {
                    proof {
                        lemma_hands_on(
                            *self,
                            variables@,
                            before,
                            store,
                            *old(self),
                            old(variables)@,
                            action,
                        );
                    }
                    return action;
                },
                None => {},
            }
        }
    }

    /// Takes the answer to the request that is waiting.  Gives `false`, and
    /// changes nothing, if none is.
    pub fn supply(&mut self, answer: u64) -> (accepted: bool)
        requires
            old(self).wf(),
        ensures
            final(self).wf(),
            accepted == old(self).asking().is_some(),
            final(self).asking().is_none(),
            final(self).tasks() == old(self).tasks(),
            accepted ==> final(self).fuel() < old(self).fuel(),
            accepted ==> final(self).values() == old(self).values().push(ValueView::Number(answer)),
            !accepted ==> final(self).values() == old(self).values(),
            forall|store: Map<Seq<char>, ValueView>, oracle: Oracle|
                (old(self).asking().is_some() ==> oracle(old(self).asking().unwrap()) == answer)
                    ==> #[trigger] final(self).outcome(store, oracle) == old(self).outcome(
                    store,
                    oracle,
                ),
    {
        if self.pending.is_some() {
            self.pending = None;
            self.push_value(RuntimeValue::Number(answer));
            true
        } else {
            false
        }
    }

    /// Runs to the end.  Every request is put to `kernel`, and the values
    /// that the run prints are collected.
    ///
    /// Gives the printed values, in order, and the value or the failure that
    /// the run ends with.  For every oracle that answers as `kernel` does,
    /// that is what the run came to when it was started.
    pub fn run<F: Fn(Request) -> u64>(&mut self, variables: &mut Variables, kernel: &F) -> (end: (
        Vec<RuntimeValue>,
        Result<RuntimeValue, EvalError>,
    ))
        requires
            old(self).wf(),
            forall|request: Request| call_requires(kernel, (request,)),
        ensures
            final(self).finished(),
            forall|oracle: Oracle|
                answers_as(oracle, kernel) ==> #[trigger] old(self).outcome(
                    old(variables)@,
                    oracle,
                ) == (Outcome {
                    printed: values_view(end.0@),
                    store: final(variables)@,
                    result: outcome_view(end.1),
                }),
    {
        let mut printed: Vec<RuntimeValue> = Vec::new();
        proof {
            assert forall|oracle: Oracle|
                old(self).outcome(old(variables)@, oracle) == after_printing(
                    values_view(printed@),
                    #[trigger] self.outcome(variables@, oracle),
                ) by {
                let now = self.outcome(variables@, oracle);
                assert(values_view(printed@) + now.printed =~= now.printed);
            }
        }
        loop
            invariant
                self.wf(),
                forall|request: Request| call_requires(kernel, (request,)),
                forall|oracle: Oracle|
                    answers_as(oracle, kernel) ==> old(self).outcome(old(variables)@, oracle)
                        == after_printing(
                        values_view(printed@),
                        #[trigger] self.outcome(variables@, oracle),
                    ),
            decreases self.fuel(),
        {
            let ghost before = *self;
            let ghost store = variables@;
            let ghost shown = values_view(printed@);
            match self.step(variables) {
                Action::Ask(request) => {
                    let ghost asked = request@;
                    let ghost waiting = *self;
                    let answer = kernel(request);
                    self.supply(answer);
                    proof {
                        assert forall|oracle: Oracle|
                            answers_as(oracle, kernel) implies old(self).outcome(
                            old(variables)@,
                            oracle,
                        ) == after_printing(shown, #[trigger] self.outcome(variables@, oracle)) by {
                            assert(oracle(asked) == answer);
                            assert(self.outcome(variables@, oracle) == waiting.outcome(
                                variables@,
                                oracle,
                            ));
                            assert(waiting.outcome(variables@, oracle) == before.outcome(
                                store,
                                oracle,
                            ));
                        }
                    }
                },
                Action::Print(value) => {
                    printed.push(value);
                    proof {
                        assert(values_view(printed@) =~= shown.push(value@));
                        assert forall|oracle: Oracle|
                            answers_as(oracle, kernel) implies old(self).outcome(
                            old(variables)@,
                            oracle,
                        ) == after_printing(
                            values_view(printed@),
                            #[trigger] self.outcome(variables@, oracle),
                        ) by {
                            let now = self.outcome(variables@, oracle);
                            assert(before.outcome(store, oracle) == after_printing(
                                seq![value@],
                                now,
                            ));
                            assert(shown + (seq![value@] + now.printed) =~= shown.push(value@)
                                + now.printed);
                        }
                    }
                },
                Action::Done(value) => {
                    proof {
                        assert forall|oracle: Oracle|
                            answers_as(oracle, kernel) implies #[trigger] old(self).outcome(
                            old(variables)@,
                            oracle,
                        ) == (Outcome {
                            printed: shown,
                            store: variables@,
                            result: Ok(value@),
                        }) by {
                            assert(before.outcome(store, oracle) == quiet(variables@, Ok(value@)));
                            assert(shown + Seq::<ValueView>::empty() =~= shown);
                        }
                    }
                    return (printed, Ok(value));
                },
                Action::Failed(error) => {
                    proof {
                        assert forall|oracle: Oracle|
                            answers_as(oracle, kernel) implies #[trigger] old(self).outcome(
                            old(variables)@,
                            oracle,
                        ) == (Outcome {
                            printed: shown,
                            store: variables@,
                            result: Err(error@),
                        }) by {
                            assert(before.outcome(store, oracle) == quiet(
                                variables@,
                                Err(error@),
                            ));
                            assert(shown + Seq::<ValueView>::empty() =~= shown);
                        }
                    }
                    return (printed, Err(error));
                },
            }
        }
    }
}

impl Expression {
    /// Starts the evaluation of the expression.  The run comes to the value
    /// of the expression, or to the failure that evaluating it ends with;
    /// nothing is printed and no variable is changed.
    pub fn eval(&self) -> (run: Evaluation<'_>)
        ensures
            run.wf(),
            run.asking().is_none(),
            run.fuel() == 4 * size(self@),
            forall|store: Map<Seq<char>, ValueView>, oracle: Oracle| #[trigger]
                run.outcome(store, oracle) == quiet(store, evaluate(self@, store, oracle)),
    {
        let run = Evaluation::start(Task::Eval(self));
        proof {
            let none = Seq::<TaskView>::empty();
            let task = TaskView::Eval(self@);
            assert(run.tasks() =~= none.push(task));
            lemma_balanced_push(none, task, 0);
            lemma_load_push(none, task);
            assert forall|store: Map<Seq<char>, ValueView>, oracle: Oracle| #[trigger]
                run.outcome(store, oracle) == quiet(store, evaluate(self@, store, oracle)) by {
                lemma_top(none, task, Seq::empty(), store, oracle);
            }
        }
        run
    }
}

impl Statement {
    /// Starts the run of the statement.  The run comes to what running the
    /// statement prints, to the variables that it leaves, and to `nil` or to
    /// the failure that ended it.
    pub fn eval(&self) -> (run: Evaluation<'_>)
        ensures
            run.wf(),
            run.asking().is_none(),
            run.fuel() == cost(self@),
            forall|store: Map<Seq<char>, ValueView>, oracle: Oracle| #[trigger]
                run.outcome(store, oracle) == execute(self@, store, oracle),
    {
        let run = Evaluation::start(Task::Run(self));
        proof {
            let none = Seq::<TaskView>::empty();
            let task = TaskView::Run(self@);
            assert(run.tasks() =~= none.push(task));
            lemma_balanced_push(none, task, 0);
            lemma_load_push(none, task);
            assert forall|store: Map<Seq<char>, ValueView>, oracle: Oracle| #[trigger]
                run.outcome(store, oracle) == execute(self@, store, oracle) by {
                lemma_top(none, task, Seq::empty(), store, oracle);
                lemma_execute_result(self@, store, oracle);
                let first = execute(self@, store, oracle);
                assert(first.printed + Seq::<ValueView>::empty() =~= first.printed);
            }
        }
        run
    }
}

/// What the machine hands out after steps without an action, it hands out on
/// the whole way.
proof fn lemma_hands_on<'a>(
    after: Evaluation<'a>,
    store_after: Map<Seq<char>, ValueView>,
    middle: Evaluation<'a>,
    store_middle: Map<Seq<char>, ValueView>,
    before: Evaluation<'a>,
    store_before: Map<Seq<char>, ValueView>,
    action: Action,
)
    requires
        after.hands(store_after, middle, store_middle, action),
        middle.asking().is_none(),
        before.asking().is_none(),
        middle.fuel() <= before.fuel(),
        forall|oracle: Oracle| #[trigger]
            finish(middle.tasks(), middle.values(), store_middle, oracle) == finish(
                before.tasks(),
                before.values(),
                store_before,
                oracle,
            ),
    ensures
        after.hands(store_after, before, store_before, action),
{
    assert forall|oracle: Oracle| #[trigger]
        middle.outcome(store_middle, oracle) == before.outcome(store_before, oracle) by {
        assert(middle.outcome(store_middle, oracle) == finish(
            middle.tasks(),
            middle.values(),
            store_middle,
            oracle,
        ));
    }
    match action {
        Action::Ask(_) => {
            assert forall|oracle: Oracle| #[trigger]
                after.outcome(store_after, oracle) == before.outcome(store_before, oracle) by {
                assert(after.outcome(store_after, oracle) == middle.outcome(store_middle, oracle));
            }
        },
        Action::Print(value) => {
            assert forall|oracle: Oracle|
                before.outcome(store_before, oracle) == after_printing(
                    seq![value@],
                    #[trigger] after.outcome(store_after, oracle),
                ) by {
                assert(middle.outcome(store_middle, oracle) == after_printing(
                    seq![value@],
                    after.outcome(store_after, oracle),
                ));
            }
        },
        Action::Done(value) => {
            assert forall|oracle: Oracle| #[trigger]
                before.outcome(store_before, oracle) == quiet(store_after, Ok(value@)) by {
                assert(middle.outcome(store_middle, oracle) == quiet(store_after, Ok(value@)));
            }
        },
        Action::Failed(error) => {
            assert forall|oracle: Oracle| #[trigger]
                before.outcome(store_before, oracle) == quiet(store_after, Err(error@)) by {
                assert(middle.outcome(store_middle, oracle) == quiet(store_after, Err(error@)));
            }
        },
    }
}

} // verus!
