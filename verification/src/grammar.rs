//! The grammar, as functions on a sequence of tokens.
//!
//! From the lowest precedence to the highest, every binary level associating
//! to the left:
//!
//! ```text
//! program     := statement* end-of-input
//! statement   := "print" expression ";"
//!              | "var" IDENTIFIER "=" expression ";"
//!              | IDENTIFIER "=" expression ";"
//!              | expression ";"
//! expression  := or
//! or          := and ( "or" and )*
//! and         := equality ( "and" equality )*
//! equality    := comparison ( ( "==" | "!=" ) comparison )*
//! comparison  := term ( ( "<" | "<=" | ">" | ">=" ) term )*
//! term        := factor ( ( "+" | "-" ) factor )*
//! factor      := unary ( ( "*" | "/" ) unary )*
//! unary       := ( "!" | "-" ) unary | primary
//! primary     := NUMBER | STRING | IDENTIFIER | "true" | "false" | "nil"
//!              | "(" expression ")"
//! ```
//!
//! The grammar reads of a token its category and, where the token is a number,
//! a string or a name, its payload; never its position or its lexeme.

use crate::parser::{ExpressionView, Operator, StatementView};
use crate::token::{Category, TokenView};
use vstd::prelude::*;

verus! {

/// What the grammar reads of a token.
pub struct Symbol {
    pub category: Category,
    pub payload: Seq<char>,
}

/// What the grammar reads of a token: its category, and its payload if it is
/// a number, a string or a name.
pub open spec fn symbol(token: TokenView) -> Symbol {
    Symbol {
        category: token.category,
        payload: if token.category.is_literal() {
            token.payload
        } else {
            Seq::empty()
        },
    }
}

/// What the grammar reads of a sequence of tokens.
pub open spec fn symbols(tokens: Seq<TokenView>) -> Seq<Symbol> {
    Seq::new(tokens.len(), |i: int| symbol(tokens[i]))
}

/// What the parser looked for where it gave up.
#[derive(Debug, Clone, Copy, PartialEq, Eq, Structural)]
pub enum Expected {
    /// The start of an expression.
    Expression,
    /// The `)` that closes a group.
    RightParen,
    /// The `;` that ends a statement.
    Semicolon,
    /// The name behind `var`.
    Identifier,
    /// The `=` behind the name of a declaration.
    Equal,
    /// An operator.
    Operator,
}

/// A failed parse: what was looked for, the index of the token that was found
/// in its place, and the index of the token whose position the failure is
/// reported at.  That is the token that was found, but for a missing `)`: it
/// is reported at the `(` that it was to close.
pub struct Failure {
    pub expected: Expected,
    pub at: int,
    pub mark: int,
}

/// The outcome of a grammar rule: what it built and the index of the first
/// token behind it, or the failure.
pub type Parsed<T> = Result<(T, int), Failure>;

/// The level of the binary operators `*` and `/`.
pub const FACTOR: u8 = 0;

/// The level of the binary operators `+` and `-`.
pub const TERM: u8 = 1;

/// The level of `<`, `<=`, `>` and `>=`.
pub const COMPARISON: u8 = 2;

/// The level of `==` and `!=`.
pub const EQUALITY: u8 = 3;

/// The level of `and`.
pub const AND: u8 = 4;

/// The level of `or`, the lowest.
pub const OR: u8 = 5;

/// The category of the token at `pos`; the end of input behind the last one.
pub open spec fn category_at(ss: Seq<Symbol>, pos: int) -> Category {
    if 0 <= pos < ss.len() {
        ss[pos].category
    } else {
        Category::EndOfFile
    }
}

/// The payload of the token at `pos`.
pub open spec fn payload_at(ss: Seq<Symbol>, pos: int) -> Seq<char> {
    if 0 <= pos < ss.len() {
        ss[pos].payload
    } else {
        Seq::empty()
    }
}

/// The operator that a token of the given category denotes.
pub open spec fn operator_of(category: Category) -> Option<Operator> {
    match category {
        Category::Star => Some(Operator::Multiply),
        Category::Slash => Some(Operator::Divide),
        Category::Plus => Some(Operator::Add),
        Category::Minus => Some(Operator::Subtract),
        Category::Greater => Some(Operator::Greater),
        Category::GreaterEqual => Some(Operator::GreaterEqual),
        Category::Less => Some(Operator::Less),
        Category::LessEqual => Some(Operator::LessEqual),
        Category::BangEqual => Some(Operator::BangEqual),
        Category::EqualEqual => Some(Operator::EqualEqual),
        Category::Bang => Some(Operator::Bang),
        Category::And => Some(Operator::And),
        Category::Or => Some(Operator::Or),
        _ => None,
    }
}

/// The precedence level at which an operator stands between two operands.
pub open spec fn level_of(op: Operator) -> Option<u8> {
    match op {
        Operator::Multiply | Operator::Divide => Some(FACTOR),
        Operator::Add | Operator::Subtract => Some(TERM),
        Operator::Greater | Operator::GreaterEqual | Operator::Less | Operator::LessEqual => Some(
            COMPARISON,
        ),
        Operator::BangEqual | Operator::EqualEqual => Some(EQUALITY),
        Operator::And => Some(AND),
        Operator::Or => Some(OR),
        Operator::Bang | Operator::Power => None,
    }
}

/// The binary operator of level `level` that a token of the given category
/// denotes.
pub open spec fn binary_operator(level: u8, category: Category) -> Option<Operator> {
    match operator_of(category) {
        Some(op) => if level_of(op) == Some(level) {
            Some(op)
        } else {
            None
        },
        None => None,
    }
}

/// `primary`: a literal, a name, or an expression in parentheses.
pub open spec fn primary(ss: Seq<Symbol>, pos: int) -> Parsed<ExpressionView>
    decreases ss.len() - pos, 0nat,
{
    match category_at(ss, pos) {
        Category::Number => Ok((ExpressionView::Number(payload_at(ss, pos)), pos + 1)),
        Category::String => Ok((ExpressionView::String(payload_at(ss, pos)), pos + 1)),
        Category::Identifier => Ok((ExpressionView::Identifier(payload_at(ss, pos)), pos + 1)),
        Category::True => Ok((ExpressionView::Boolean(true), pos + 1)),
        Category::False => Ok((ExpressionView::Boolean(false), pos + 1)),
        Category::Nil => Ok((ExpressionView::Nil, pos + 1)),
        Category::LeftParen => match expression(ss, pos + 1) {
            Ok((inner, behind)) => if category_at(ss, behind) == Category::RightParen {
                Ok((ExpressionView::Group(Box::new(inner)), behind + 1))
            } else {
                Err(Failure { expected: Expected::RightParen, at: behind, mark: pos })
            },
            Err(failure) => Err(failure),
        },
        _ => Err(Failure { expected: Expected::Expression, at: pos, mark: pos }),
    }
}

/// `unary`: any number of `!` and `-` before a primary.
pub open spec fn unary(ss: Seq<Symbol>, pos: int) -> Parsed<ExpressionView>
    decreases ss.len() - pos, 1nat,
{
    let category = category_at(ss, pos);
    if category == Category::Bang || category == Category::Minus {
        match unary(ss, pos + 1) {
            Ok((operand, behind)) => Ok(
                (
                    ExpressionView::Unary(
                        if category == Category::Bang {
                            Operator::Bang
                        } else {
                            Operator::Subtract
                        },
                        Box::new(operand),
                    ),
                    behind,
                ),
            ),
            Err(failure) => Err(failure),
        }
    } else {
        primary(ss, pos)
    }
}

/// An operand of the binary level `level`: an expression of the next higher
/// level.
pub open spec fn operand(ss: Seq<Symbol>, pos: int, level: u8) -> Parsed<ExpressionView>
    decreases ss.len() - pos, 2 * level + 2,
{
    if level == 0 {
        unary(ss, pos)
    } else {
        binary(ss, pos, (level - 1) as u8)
    }
}

/// The rest of a binary level behind its operand `left`: any number of
/// operators of the level, each with an operand, folded to the left.
pub open spec fn binary_rest(ss: Seq<Symbol>, pos: int, level: u8, left: ExpressionView) -> Parsed<
    ExpressionView,
>
    decreases ss.len() - pos, 2 * level + 2,
{
    match binary_operator(level, category_at(ss, pos)) {
        Some(op) => match operand(ss, pos + 1, level) {
            Ok((right, behind)) => if pos < behind <= ss.len() {
                binary_rest(
                    ss,
                    behind,
                    level,
                    ExpressionView::Binary(Box::new(left), op, Box::new(right)),
                )
            } else {
                Err(Failure { expected: Expected::Expression, at: pos, mark: pos })
            },
            Err(failure) => Err(failure),
        },
        None => Ok((left, pos)),
    }
}

/// A binary level: an operand and the rest of the level.
pub open spec fn binary(ss: Seq<Symbol>, pos: int, level: u8) -> Parsed<ExpressionView>
    decreases ss.len() - pos, 2 * level + 3,
{
    match operand(ss, pos, level) {
        Ok((left, behind)) => if pos < behind <= ss.len() {
            binary_rest(ss, behind, level, left)
        } else {
            Err(Failure { expected: Expected::Expression, at: pos, mark: pos })
        },
        Err(failure) => Err(failure),
    }
}

/// `expression`: the lowest binary level.
pub open spec fn expression(ss: Seq<Symbol>, pos: int) -> Parsed<ExpressionView>
    decreases ss.len() - pos, 20nat,
{
    binary(ss, pos, OR)
}

/// What was parsed, if the token behind it is of the category asked for; that
/// token is then taken too.
pub open spec fn followed_by<T>(
    ss: Seq<Symbol>,
    parsed: Parsed<T>,
    category: Category,
    expected: Expected,
) -> Parsed<T> {
    match parsed {
        Ok((built, behind)) => if category_at(ss, behind) == category {
            Ok((built, behind + 1))
        } else {
            Err(Failure { expected, at: behind, mark: behind })
        },
        Err(failure) => Err(failure),
    }
}

/// An expression and the `;` behind it.
pub open spec fn terminated(ss: Seq<Symbol>, pos: int) -> Parsed<ExpressionView> {
    followed_by(ss, expression(ss, pos), Category::Semicolon, Expected::Semicolon)
}

/// `statement`: a print statement, a declaration, or an expression statement.
pub open spec fn statement(ss: Seq<Symbol>, pos: int) -> Parsed<StatementView> {
    let category = category_at(ss, pos);
    if category == Category::Print {
        match terminated(ss, pos + 1) {
            Ok((e, behind)) => Ok((StatementView::Print(e), behind)),
            Err(failure) => Err(failure),
        }
    } else if category == Category::Var {
        if category_at(ss, pos + 1) != Category::Identifier {
            Err(Failure { expected: Expected::Identifier, at: pos + 1, mark: pos + 1 })
        } else if category_at(ss, pos + 2) != Category::Equal {
            Err(Failure { expected: Expected::Equal, at: pos + 2, mark: pos + 2 })
        } else {
            match terminated(ss, pos + 3) {
                Ok((e, behind)) => Ok(
                    (StatementView::Declaration(payload_at(ss, pos + 1), e), behind),
                ),
                Err(failure) => Err(failure),
            }
        }
    } else if category == Category::Identifier && category_at(ss, pos + 1) == Category::Equal {
        match terminated(ss, pos + 2) {
            Ok((e, behind)) => Ok((StatementView::Declaration(payload_at(ss, pos), e), behind)),
            Err(failure) => Err(failure),
        }
    } else {
        match terminated(ss, pos) {
            Ok((e, behind)) => Ok((StatementView::ExprStmt(e), behind)),
            Err(failure) => Err(failure),
        }
    }
}

/// `program`: statements up to the end of input.
pub open spec fn program(ss: Seq<Symbol>, pos: int) -> Parsed<Seq<StatementView>>
    decreases ss.len() - pos,
{
    if category_at(ss, pos) == Category::EndOfFile {
        Ok((Seq::empty(), pos))
    } else {
        match statement(ss, pos) {
            Ok((first, behind)) => if pos < behind <= ss.len() {
                match program(ss, behind) {
                    Ok((rest, end)) => Ok((seq![first] + rest, end)),
                    Err(failure) => Err(failure),
                }
            } else {
                Err(Failure { expected: Expected::Expression, at: pos, mark: pos })
            },
            Err(failure) => Err(failure),
        }
    }
}

/// What the grammar makes of tokens does not depend on where they stand in
/// the source or how they are written there: two sequences of tokens that
/// agree in the categories, and in the payloads of the numbers, strings and
/// names, give the same tree, or fail at the same token for the same reason.
pub proof fn lemma_layout_is_ignored(a: Seq<TokenView>, b: Seq<TokenView>, pos: int)
    requires
        a.len() == b.len(),
        forall|i: int| 0 <= i < a.len() ==> symbol(a[i]) == symbol(b[i]),
    ensures
        expression(symbols(a), pos) == expression(symbols(b), pos),
        statement(symbols(a), pos) == statement(symbols(b), pos),
        program(symbols(a), pos) == program(symbols(b), pos),
{
    assert(symbols(a) =~= symbols(b));
}

/// A rule that succeeds takes at least one token and stays within the
/// tokens, and a rule that fails fails at a token at or behind the one it
/// started at.  So the places where a grammar rule asks whether the rule
/// before it has moved on always find that it has.
pub proof fn lemma_expression_advances(ss: Seq<Symbol>, pos: int)
    requires
        0 <= pos,
    ensures
        match expression(ss, pos) {
            Ok((_, behind)) => pos < behind <= ss.len(),
            Err(failure) => pos <= failure.at,
        },
    decreases ss.len() - pos, 20nat,
{
    lemma_binary_advances(ss, pos, OR);
}

proof fn lemma_primary_advances(ss: Seq<Symbol>, pos: int)
    requires
        0 <= pos,
    ensures
        match primary(ss, pos) {
            Ok((_, behind)) => pos < behind <= ss.len(),
            Err(failure) => pos <= failure.at,
        },
    decreases ss.len() - pos, 0nat,
{
    if category_at(ss, pos) == Category::LeftParen {
        lemma_expression_advances(ss, pos + 1);
    }
}

proof fn lemma_unary_advances(ss: Seq<Symbol>, pos: int)
    requires
        0 <= pos,
    ensures
        match unary(ss, pos) {
            Ok((_, behind)) => pos < behind <= ss.len(),
            Err(failure) => pos <= failure.at,
        },
    decreases ss.len() - pos, 1nat,
{
    let category = category_at(ss, pos);
    if category == Category::Bang || category == Category::Minus {
        lemma_unary_advances(ss, pos + 1);
    } else {
        lemma_primary_advances(ss, pos);
    }
}

proof fn lemma_operand_advances(ss: Seq<Symbol>, pos: int, level: u8)
    requires
        0 <= pos,
    ensures
        match operand(ss, pos, level) {
            Ok((_, behind)) => pos < behind <= ss.len(),
            Err(failure) => pos <= failure.at,
        },
    decreases ss.len() - pos, 2 * level + 2,
{
    if level == 0 {
        lemma_unary_advances(ss, pos);
    } else {
        lemma_binary_advances(ss, pos, (level - 1) as u8);
    }
}

proof fn lemma_binary_rest_advances(ss: Seq<Symbol>, pos: int, level: u8, left: ExpressionView)
    requires
        0 <= pos <= ss.len(),
    ensures
        match binary_rest(ss, pos, level, left) {
            Ok((_, behind)) => pos <= behind <= ss.len(),
            Err(failure) => pos <= failure.at,
        },
    decreases ss.len() - pos, 2 * level + 2,
{
    match binary_operator(level, category_at(ss, pos)) {
        Some(op) => {
            lemma_operand_advances(ss, pos + 1, level);
            match operand(ss, pos + 1, level) {
                Ok((right, behind)) => {
                    lemma_binary_rest_advances(
                        ss,
                        behind,
                        level,
                        ExpressionView::Binary(Box::new(left), op, Box::new(right)),
                    );
                },
                Err(_) => {},
            }
        },
        None => {},
    }
}

proof fn lemma_binary_advances(ss: Seq<Symbol>, pos: int, level: u8)
    requires
        0 <= pos,
    ensures
        match binary(ss, pos, level) {
            Ok((_, behind)) => pos < behind <= ss.len(),
            Err(failure) => pos <= failure.at,
        },
    decreases ss.len() - pos, 2 * level + 3,
{
    lemma_operand_advances(ss, pos, level);
    match operand(ss, pos, level) {
        Ok((left, behind)) => {
            lemma_binary_rest_advances(ss, behind, level, left);
        },
        Err(_) => {},
    }
}

/// A statement that is parsed takes at least one token and stays within the
/// tokens.
pub proof fn lemma_statement_advances(ss: Seq<Symbol>, pos: int)
    requires
        0 <= pos,
    ensures
        match statement(ss, pos) {
            Ok((_, behind)) => pos < behind <= ss.len(),
            Err(failure) => pos <= failure.at,
        },
{
    lemma_expression_advances(ss, pos);
    lemma_expression_advances(ss, pos + 1);
    lemma_expression_advances(ss, pos + 2);
    lemma_expression_advances(ss, pos + 3);
}

/// The number of tokens that write an expression.
pub open spec fn width(e: ExpressionView) -> nat
    decreases e,
{
    match e {
        ExpressionView::Binary(left, _, right) => width(*left) + 1 + width(*right),
        ExpressionView::Unary(_, operand) => 1 + width(*operand),
        ExpressionView::Group(inner) => 2 + width(*inner),
        _ => 1,
    }
}

/// Whether the tokens from `from` on write the expression: a literal or a
/// name by the token that carries it, a group between parentheses, a unary
/// operation by its operator and its operand, a binary operation by its left
/// operand, its operator and its right operand.
pub open spec fn spells(ss: Seq<Symbol>, from: int, e: ExpressionView) -> bool
    decreases e,
{
    match e {
        ExpressionView::Number(numeral) => category_at(ss, from) == Category::Number && payload_at(
            ss,
            from,
        ) == numeral,
        ExpressionView::String(s) => category_at(ss, from) == Category::String && payload_at(
            ss,
            from,
        ) == s,
        ExpressionView::Identifier(name) => category_at(ss, from) == Category::Identifier
            && payload_at(ss, from) == name,
        ExpressionView::Boolean(b) => category_at(ss, from) == if b {
            Category::True
        } else {
            Category::False
        },
        ExpressionView::Nil => category_at(ss, from) == Category::Nil,
        ExpressionView::Group(inner) => category_at(ss, from) == Category::LeftParen && spells(
            ss,
            from + 1,
            *inner,
        ) && category_at(ss, from + 1 + width(*inner)) == Category::RightParen,
        ExpressionView::Unary(op, operand) => operator_of(category_at(ss, from)) == Some(op)
            && spells(ss, from + 1, *operand),
        ExpressionView::Binary(left, op, right) => spells(ss, from, *left) && operator_of(
            category_at(ss, from + width(*left)),
        ) == Some(op) && spells(ss, from + width(*left) + 1, *right),
    }
}

/// Whether an expression is one that the binary level `level` admits without
/// parentheses: no operator in it binds looser than the level, the left
/// operand of a binary operator binds no looser than the operator, and its
/// right operand binds tighter.  The level below the tightest binary level
/// is that of the unary operators, which take `!` and `-` only.
pub open spec fn fits(e: ExpressionView, level: int) -> bool
    decreases e,
{
    match e {
        ExpressionView::Binary(left, op, right) => match level_of(op) {
            Some(own) => own <= level && fits(*left, own as int) && fits(*right, own - 1),
            None => false,
        },
        ExpressionView::Unary(op, operand) => level >= -1 && (op == Operator::Bang || op
            == Operator::Subtract) && fits(*operand, -1),
        ExpressionView::Group(inner) => fits(*inner, OR as int),
        _ => true,
    }
}

/// Whether the tree `e` that a rule of the level `level` built from the
/// token at `pos` on, ending before `behind`, is the one that those tokens
/// write.
pub open spec fn reads(ss: Seq<Symbol>, pos: int, e: ExpressionView, behind: int, level: int) -> bool {
    behind == pos + width(e) && spells(ss, pos, e) && fits(e, level)
}

/// What fits a level fits every looser level.
proof fn lemma_fits_looser(e: ExpressionView, level: int, looser: int)
    requires
        fits(e, level),
        level <= looser,
    ensures
        fits(e, looser),
{
}

/// The tree that is parsed is the tree that the tokens write: it is spelled
/// by exactly the tokens that were taken, in their order, and it nests as the
/// precedence of the operators and their association to the left demand.
pub proof fn lemma_expression_reads(ss: Seq<Symbol>, pos: int)
    requires
        0 <= pos,
    ensures
        match expression(ss, pos) {
            Ok((e, behind)) => reads(ss, pos, e, behind, OR as int),
            Err(_) => true,
        },
    decreases ss.len() - pos, 20nat,
{
    lemma_binary_reads(ss, pos, OR);
}

proof fn lemma_primary_reads(ss: Seq<Symbol>, pos: int)
    requires
        0 <= pos,
    ensures
        match primary(ss, pos) {
            Ok((e, behind)) => reads(ss, pos, e, behind, -2),
            Err(_) => true,
        },
    decreases ss.len() - pos, 0nat,
{
    if category_at(ss, pos) == Category::LeftParen {
        lemma_expression_reads(ss, pos + 1);
    }
}

proof fn lemma_unary_reads(ss: Seq<Symbol>, pos: int)
    requires
        0 <= pos,
    ensures
        match unary(ss, pos) {
            Ok((e, behind)) => reads(ss, pos, e, behind, -1),
            Err(_) => true,
        },
    decreases ss.len() - pos, 1nat,
{
    let category = category_at(ss, pos);
    if category == Category::Bang || category == Category::Minus {
        lemma_unary_reads(ss, pos + 1);
    } else {
        lemma_primary_reads(ss, pos);
        match primary(ss, pos) {
            Ok((e, _)) => {
                lemma_fits_looser(e, -2, -1);
            },
            Err(_) => {},
        }
    }
}

proof fn lemma_operand_reads(ss: Seq<Symbol>, pos: int, level: u8)
    requires
        0 <= pos,
        level <= OR,
    ensures
        match operand(ss, pos, level) {
            Ok((e, behind)) => reads(ss, pos, e, behind, level - 1),
            Err(_) => true,
        },
    decreases ss.len() - pos, 2 * level + 2,
{
    if level == 0 {
        lemma_unary_reads(ss, pos);
    } else {
        lemma_binary_reads(ss, pos, (level - 1) as u8);
    }
}

proof fn lemma_binary_rest_reads(
    ss: Seq<Symbol>,
    start: int,
    pos: int,
    level: u8,
    left: ExpressionView,
)
    requires
        0 <= start <= pos,
        level <= OR,
        reads(ss, start, left, pos, level as int),
    ensures
        match binary_rest(ss, pos, level, left) {
            Ok((e, behind)) => reads(ss, start, e, behind, level as int),
            Err(_) => true,
        },
    decreases ss.len() - pos, 2 * level + 2,
{
    match binary_operator(level, category_at(ss, pos)) {
        Some(op) => {
            lemma_operand_reads(ss, pos + 1, level);
            match operand(ss, pos + 1, level) {
                Ok((right, behind)) => {
                    if pos < behind <= ss.len() {
                        let whole = ExpressionView::Binary(Box::new(left), op, Box::new(right));
                        lemma_binary_rest_reads(ss, start, behind, level, whole);
                    }
                },
                Err(_) => {},
            }
        },
        None => {},
    }
}

proof fn lemma_binary_reads(ss: Seq<Symbol>, pos: int, level: u8)
    requires
        0 <= pos,
        level <= OR,
    ensures
        match binary(ss, pos, level) {
            Ok((e, behind)) => reads(ss, pos, e, behind, level as int),
            Err(_) => true,
        },
    decreases ss.len() - pos, 2 * level + 3,
{
    lemma_operand_reads(ss, pos, level);
    match operand(ss, pos, level) {
        Ok((left, behind)) => {
            if pos < behind <= ss.len() {
                lemma_fits_looser(left, level - 1, level as int);
                lemma_binary_rest_reads(ss, pos, behind, level, left);
            }
        },
        Err(_) => {},
    }
}

/// Whether the parse of a phrase of the level `level` ends at `at`: the token
/// there is no binary operator of that level or of a tighter one.
pub open spec fn stops(ss: Seq<Symbol>, at: int, level: int) -> bool {
    match operator_of(category_at(ss, at)) {
        Some(op) => match level_of(op) {
            Some(own) => own > level,
            None => true,
        },
        None => true,
    }
}

/// The tokens that write an expression lie within the tokens.
proof fn lemma_spells_within(ss: Seq<Symbol>, pos: int, e: ExpressionView)
    requires
        0 <= pos,
        spells(ss, pos, e),
    ensures
        pos + width(e) <= ss.len(),
    decreases e,
{
    match e {
        ExpressionView::Binary(left, _, right) => {
            lemma_spells_within(ss, pos, *left);
            lemma_spells_within(ss, pos + width(*left) + 1, *right);
        },
        ExpressionView::Unary(_, operand) => {
            lemma_spells_within(ss, pos + 1, *operand);
        },
        ExpressionView::Group(inner) => {
            lemma_spells_within(ss, pos + 1, *inner);
        },
        _ => {},
    }
}

/// Every phrase is read as what it writes: where the tokens from a place on
/// write an expression that nests as precedence and association to the left
/// demand, and no operator follows that would carry the phrase on, the
/// expression is what the parser builds from that place.
///
/// With [`lemma_expression_reads`] this says that the tree that is parsed is
/// the one and only reading of the tokens that were taken.
pub proof fn lemma_expression_is_read(ss: Seq<Symbol>, pos: int, e: ExpressionView)
    requires
        0 <= pos,
        spells(ss, pos, e),
        fits(e, OR as int),
        stops(ss, pos + width(e), OR as int),
    ensures
        expression(ss, pos) == Ok::<(ExpressionView, int), Failure>((e, pos + width(e))),
{
    lemma_binary_is_read(ss, pos, e, OR);
}

proof fn lemma_primary_is_read(ss: Seq<Symbol>, pos: int, e: ExpressionView)
    requires
        0 <= pos,
        spells(ss, pos, e),
        fits(e, -2),
    ensures
        primary(ss, pos) == Ok::<(ExpressionView, int), Failure>((e, pos + width(e))),
    decreases e, 0nat,
{
    match e {
        ExpressionView::Group(inner) => {
            lemma_binary_is_read(ss, pos + 1, *inner, OR);
        },
        _ => {},
    }
}

proof fn lemma_unary_is_read(ss: Seq<Symbol>, pos: int, e: ExpressionView)
    requires
        0 <= pos,
        spells(ss, pos, e),
        fits(e, -1),
    ensures
        unary(ss, pos) == Ok::<(ExpressionView, int), Failure>((e, pos + width(e))),
    decreases e, 1nat,
{
    match e {
        ExpressionView::Unary(_, operand) => {
            lemma_unary_is_read(ss, pos + 1, *operand);
        },
        _ => {
            lemma_primary_is_read(ss, pos, e);
        },
    }
}

proof fn lemma_operand_is_read(ss: Seq<Symbol>, pos: int, e: ExpressionView, level: u8)
    requires
        0 <= pos,
        level <= OR,
        spells(ss, pos, e),
        fits(e, level - 1),
        stops(ss, pos + width(e), level - 1),
    ensures
        operand(ss, pos, level) == Ok::<(ExpressionView, int), Failure>((e, pos + width(e))),
    decreases e, 3 * level + 2,
{
    if level == 0 {
        lemma_unary_is_read(ss, pos, e);
    } else {
        lemma_binary_is_read(ss, pos, e, (level - 1) as u8);
    }
}

/// Once the tokens of a phrase of the level are taken, the parser has the
/// phrase in hand and goes on with what follows it.
proof fn lemma_binary_takes(ss: Seq<Symbol>, pos: int, e: ExpressionView, level: u8)
    requires
        0 <= pos,
        level <= OR,
        spells(ss, pos, e),
        fits(e, level as int),
        stops(ss, pos + width(e), level - 1),
    ensures
        binary(ss, pos, level) == binary_rest(ss, pos + width(e), level, e),
    decreases e, 3 * level + 3,
{
    lemma_spells_within(ss, pos, e);
    let own = match e {
        ExpressionView::Binary(_, op, _) => level_of(op),
        _ => None,
    };
    if own == Some(level) {
        match e {
            ExpressionView::Binary(left, op, right) => {
                let middle = pos + width(*left);
                lemma_spells_within(ss, pos, *left);
                lemma_binary_takes(ss, pos, *left, level);
                lemma_operand_is_read(ss, middle + 1, *right, level);
            },
            _ => {},
        }
    } else {
        lemma_operand_is_read(ss, pos, e, level);
    }
}

proof fn lemma_binary_is_read(ss: Seq<Symbol>, pos: int, e: ExpressionView, level: u8)
    requires
        0 <= pos,
        level <= OR,
        spells(ss, pos, e),
        fits(e, level as int),
        stops(ss, pos + width(e), level as int),
    ensures
        binary(ss, pos, level) == Ok::<(ExpressionView, int), Failure>((e, pos + width(e))),
    decreases e, 3 * level + 4,
{
    lemma_binary_takes(ss, pos, e, level);
}

} // verus!
