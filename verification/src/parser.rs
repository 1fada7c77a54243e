//! The syntax tree and the parser that builds it from tokens.

use crate::grammar::{
    binary, binary_operator, binary_rest, category_at, expression, level_of, operand, operator_of,
    payload_at, primary, program, statement, symbols, terminated, unary, Expected, Failure,
    Parsed, Symbol, AND, COMPARISON, EQUALITY, FACTOR, OR, TERM,
};
use crate::text::{fragments_view, push_decimal, Fragment, FragmentView};
use crate::token::{Category, Token, TokenView};
use crate::tokenizer::{lemma_tokens_end, scan, tokens_view, Cursor, TokenIter};
use vstd::prelude::*;
use vstd::string::StringExecFns;

verus! {

/// The operators.  `Power` is written by no token and has no meaning yet.
#[derive(Debug, PartialEq, Eq, Clone, Copy, Structural)]
pub enum Operator {
    Add,
    Multiply,
    Divide,
    Subtract,
    Power,
    EqualEqual,
    BangEqual,
    LessEqual,
    Less,
    Greater,
    GreaterEqual,
    Bang,
    And,
    Or,
}

/// An expression.  A number is held by its numeral, as it was written.
#[derive(Debug, PartialEq)]
pub enum Expression {
    Binary(Box<Expression>, Operator, Box<Expression>),
    Unary(Operator, Box<Expression>),
    Number(String),
    Boolean(bool),
    String(String),
    Identifier(String),
    Group(Box<Expression>),
    Nil,
}

/// A statement.  A program is the sequence of its statements, which run in
/// their order over one flat set of variables.
#[derive(Debug, PartialEq)]
pub enum Statement {
    Print(Box<Expression>),
    ExprStmt(Box<Expression>),
    /// Binds a name to the value of an expression; a name that is bound
    /// already is bound anew.
    Declaration(String, Box<Expression>),
    Program(Vec<Statement>),
}

/// Mathematical model of an [`Expression`].
pub enum ExpressionView {
    Binary(Box<ExpressionView>, Operator, Box<ExpressionView>),
    Unary(Operator, Box<ExpressionView>),
    Number(Seq<char>),
    Boolean(bool),
    String(Seq<char>),
    Identifier(Seq<char>),
    Group(Box<ExpressionView>),
    Nil,
}

/// Mathematical model of a [`Statement`].
pub enum StatementView {
    Print(ExpressionView),
    ExprStmt(ExpressionView),
    Declaration(Seq<char>, ExpressionView),
    Program(Seq<StatementView>),
}

impl Expression {
    /// The model of the expression.
    pub open spec fn model(self) -> ExpressionView
        decreases self,
    {
        match self {
            Expression::Binary(left, op, right) => ExpressionView::Binary(
                Box::new((*left).model()),
                op,
                Box::new((*right).model()),
            ),
            Expression::Unary(op, operand) => ExpressionView::Unary(
                op,
                Box::new((*operand).model()),
            ),
            Expression::Number(numeral) => ExpressionView::Number(numeral@),
            Expression::Boolean(b) => ExpressionView::Boolean(b),
            Expression::String(s) => ExpressionView::String(s@),
            Expression::Identifier(name) => ExpressionView::Identifier(name@),
            Expression::Group(inner) => ExpressionView::Group(Box::new((*inner).model())),
            Expression::Nil => ExpressionView::Nil,
        }
    }
}

impl View for Expression {
    type V = ExpressionView;

    open spec fn view(&self) -> ExpressionView {
        self.model()
    }
}

impl Statement {
    /// The model of the statement.
    pub open spec fn model(self) -> StatementView
        decreases self,
    {
        match self {
            Statement::Print(e) => StatementView::Print((*e).model()),
            Statement::ExprStmt(e) => StatementView::ExprStmt((*e).model()),
            Statement::Declaration(name, e) => StatementView::Declaration(name@, (*e).model()),
            Statement::Program(statements) => StatementView::Program(
                Seq::new(
                    statements@.len(),
                    |i: int|
                        if 0 <= i < statements@.len() {
                            statements@[i].model()
                        } else {
                            StatementView::Program(Seq::empty())
                        },
                ),
            ),
        }
    }
}

impl View for Statement {
    type V = StatementView;

    open spec fn view(&self) -> StatementView {
        self.model()
    }
}

impl Operator {
    /// The sign by which the operator is shown.
    pub open spec fn sign_spec(self) -> Seq<char> {
        match self {
            Operator::Add => "+"@,
            Operator::Multiply => "*"@,
            Operator::Divide => "/"@,
            Operator::Subtract => "-"@,
            Operator::Power => "^"@,
            Operator::EqualEqual => "=="@,
            Operator::BangEqual => "!="@,
            Operator::LessEqual => "<="@,
            Operator::Less => "<"@,
            Operator::Greater => ">"@,
            Operator::GreaterEqual => ">="@,
            Operator::Bang => "!"@,
            Operator::And => "&&"@,
            Operator::Or => "||"@,
        }
    }

    /// The sign by which the operator is shown.
    pub fn sign(self) -> (sign: &'static str)
        ensures
            sign@ == self.sign_spec(),
    {
        match self {
            Operator::Add => "+",
            Operator::Multiply => "*",
            Operator::Divide => "/",
            Operator::Subtract => "-",
            Operator::Power => "^",
            Operator::EqualEqual => "==",
            Operator::BangEqual => "!=",
            Operator::LessEqual => "<=",
            Operator::Less => "<",
            Operator::Greater => ">",
            Operator::GreaterEqual => ">=",
            Operator::Bang => "!",
            Operator::And => "&&",
            Operator::Or => "||",
        }
    }
}

impl ExpressionView {
    /// The expression in prefix form, every operation in parentheses of its
    /// own: `(+ 1.0 2.0)`, `(group true)`, `(- 3.0)`.
    pub open spec fn pprint(self) -> Seq<FragmentView>
        decreases self,
    {
        match self {
            ExpressionView::Binary(left, op, right) => seq![
                FragmentView::Text("("@ + op.sign_spec() + " "@),
            ] + left.pprint() + seq![FragmentView::Text(" "@)] + right.pprint() + seq![
                FragmentView::Text(")"@),
            ],
            ExpressionView::Unary(op, operand) => seq![
                FragmentView::Text("("@ + op.sign_spec() + " "@),
            ] + operand.pprint() + seq![FragmentView::Text(")"@)],
            ExpressionView::Number(numeral) => seq![FragmentView::Literal(numeral)],
            ExpressionView::Boolean(b) => seq![
                FragmentView::Text(
                    if b {
                        "true"@
                    } else {
                        "false"@
                    },
                ),
            ],
            ExpressionView::String(s) => seq![FragmentView::Text(s)],
            ExpressionView::Identifier(name) => seq![FragmentView::Text(name)],
            ExpressionView::Group(inner) => seq![FragmentView::Text("(group "@)] + inner.pprint()
                + seq![FragmentView::Text(")"@)],
            ExpressionView::Nil => seq![FragmentView::Text("nil"@)],
        }
    }
}

/// Appends a text fragment.
fn push_text(out: &mut Vec<Fragment>, text: String)
    ensures
        fragments_view(final(out)@) == fragments_view(old(out)@).push(FragmentView::Text(text@)),
{
    out.push(Fragment::Text(text));
    assert(fragments_view(out@) =~= fragments_view(old(out)@).push(FragmentView::Text(text@)));
}

impl Expression {
    /// Appends the prefix form of the expression to `out`.
    fn pprint_into(&self, out: &mut Vec<Fragment>)
        ensures
            fragments_view(final(out)@) == fragments_view(old(out)@) + self@.pprint(),
        decreases self,
    {
        let ghost before = fragments_view(out@);
        match self {
            Expression::Binary(left, op, right) => {
                let mut head = String::from_str("(");
                head.append(op.sign());
                head.append(" ");
                push_text(out, head);
                left.pprint_into(out);
                push_text(out, String::from_str(" "));
                right.pprint_into(out);
                push_text(out, String::from_str(")"));
                assert(fragments_view(out@) =~= before + self@.pprint());
            },
            Expression::Unary(op, operand) => {
                let mut head = String::from_str("(");
                head.append(op.sign());
                head.append(" ");
                push_text(out, head);
                operand.pprint_into(out);
                push_text(out, String::from_str(")"));
                assert(fragments_view(out@) =~= before + self@.pprint());
            },
            Expression::Number(numeral) => {
                out.push(Fragment::Literal(numeral.clone()));
                assert(fragments_view(out@) =~= before + self@.pprint());
            },
            Expression::Boolean(b) => {
                push_text(
                    out,
                    if *b {
                        String::from_str("true")
                    } else {
                        String::from_str("false")
                    },
                );
                assert(fragments_view(out@) =~= before + self@.pprint());
            },
            Expression::String(s) => {
                push_text(out, s.clone());
                assert(fragments_view(out@) =~= before + self@.pprint());
            },
            Expression::Identifier(name) => {
                push_text(out, name.clone());
                assert(fragments_view(out@) =~= before + self@.pprint());
            },
            Expression::Group(inner) => {
                push_text(out, String::from_str("(group "));
                inner.pprint_into(out);
                push_text(out, String::from_str(")"));
                assert(fragments_view(out@) =~= before + self@.pprint());
            },
            Expression::Nil => {
                push_text(out, String::from_str("nil"));
                assert(fragments_view(out@) =~= before + self@.pprint());
            },
        }
    }

    /// Renders the expression in prefix form, every operation in parentheses
    /// of its own.  The numerals come as fragments of their own.
    pub fn pprint(&self) -> (fragments: Vec<Fragment>)
        ensures
            fragments_view(fragments@) == self@.pprint(),
    {
        let mut fragments: Vec<Fragment> = Vec::new();
        self.pprint_into(&mut fragments);
        assert(fragments_view(fragments@) =~= self@.pprint());
        fragments
    }
}

/// Why a parse failed: what the parser looked for, the category of the token
/// that it found instead, and a line and a column.  These are the place of
/// the token that was found, and zero where that token carries no position;
/// but where a `)` is missing, they are the place of the `(` that it was to
/// close.
#[derive(Debug, Clone, Copy, PartialEq, Eq, Structural)]
pub struct ParseError {
    pub expected: Expected,
    pub found: Category,
    pub line: u32,
    pub column: u32,
}

/// The error that reports a failure of the grammar on the given tokens: it
/// holds the category of the token that was found, and the line and the
/// column of the token that the failure is reported at.
pub open spec fn error_at(tokens: Seq<TokenView>, failure: Failure) -> ParseError {
    ParseError {
        expected: failure.expected,
        found: if 0 <= failure.at < tokens.len() {
            tokens[failure.at].category
        } else {
            Category::EndOfFile
        },
        line: if 0 <= failure.mark < tokens.len() {
            tokens[failure.mark].line
        } else {
            0
        },
        column: if 0 <= failure.mark < tokens.len() {
            tokens[failure.mark].column
        } else {
            0
        },
    }
}

/// The tokens with an end of input behind them, unless they end with one.
pub open spec fn closed_stream(tokens: Seq<TokenView>) -> Seq<TokenView> {
    if tokens.len() > 0 && tokens.last().category == Category::EndOfFile {
        tokens
    } else {
        tokens.push(TokenView::end())
    }
}

impl Expected {
    /// What was looked for, in words.
    pub open spec fn words_spec(self) -> Seq<char> {
        match self {
            Expected::Expression => "expression"@,
            Expected::RightParen => "')'"@,
            Expected::Semicolon => "';'"@,
            Expected::Identifier => "variable name"@,
            Expected::Equal => "'='"@,
            Expected::Operator => "operator"@,
        }
    }

    /// What was looked for, in words.
    pub fn words(self) -> (words: &'static str)
        ensures
            words@ == self.words_spec(),
    {
        match self {
            Expected::Expression => "expression",
            Expected::RightParen => "')'",
            Expected::Semicolon => "';'",
            Expected::Identifier => "variable name",
            Expected::Equal => "'='",
            Expected::Operator => "operator",
        }
    }
}

impl ParseError {
    /// ` at line:L col:C`
    pub open spec fn place_spec(self) -> Seq<char> {
        " at line:"@ + crate::text::decimal(self.line as nat) + " col:"@ + crate::text::decimal(
            self.column as nat,
        )
    }

    /// The message of the error.
    ///
    /// - Where an expression was to start: `Unexpected EOF.` at the end of
    ///   input, `Unexpected` at any other token.
    /// - Where a group was to be closed: `Expected ')' at line:L col:C`, with
    ///   the place of the `(` that opened it.
    /// - At the end of input: `Expected operator, got EOF` for an operator,
    ///   `Expected ; after expression.` for the end of a statement,
    ///   `Expected variable name, got EOF` and `Expected '=', got EOF` in a
    ///   declaration.
    /// - At any other token: `Expected W actual N`, `W` being what was looked
    ///   for and `N` the name of the category that was found, and then
    ///   ` at line:L col:C` if the token carries a position.
    pub open spec fn message_spec(self) -> Seq<char> {
        if self.expected == Expected::Expression {
            if self.found == Category::EndOfFile {
                "Unexpected EOF."@
            } else {
                "Unexpected"@
            }
        } else if self.expected == Expected::RightParen {
            "Expected ')'"@ + self.place_spec()
        } else if self.found == Category::EndOfFile {
            if self.expected == Expected::Operator {
                "Expected operator, got EOF"@
            } else if self.expected == Expected::Semicolon {
                "Expected ; after expression."@
            } else if self.expected == Expected::Identifier {
                "Expected variable name, got EOF"@
            } else {
                "Expected '=', got EOF"@
            }
        } else {
            "Expected "@ + self.expected.words_spec() + " actual "@ + self.found.name_spec()
                + if self.found.has_position() {
                self.place_spec()
            } else {
                Seq::empty()
            }
        }
    }

    /// Appends ` at line:L col:C`.
    fn push_place(&self, message: &mut String)
        ensures
            final(message)@ == old(message)@ + self.place_spec(),
    {
        message.append(" at line:");
        push_decimal(message, self.line);
        message.append(" col:");
        push_decimal(message, self.column);
        assert(message@ =~= old(message)@ + self.place_spec());
    }

    /// The message of the error; see [`ParseError::message_spec`].
    pub fn message(&self) -> (message: String)
        ensures
            message@ == self.message_spec(),
    {
        let at_end = self.found == Category::EndOfFile;
        match self.expected {
            Expected::Expression => {
                if at_end {
                    String::from_str("Unexpected EOF.")
                } else {
                    String::from_str("Unexpected")
                }
            },
            Expected::RightParen => {
                let mut message = String::from_str("Expected ')'");
                self.push_place(&mut message);
                message
            },
            Expected::Operator if at_end => String::from_str("Expected operator, got EOF"),
            Expected::Semicolon if at_end => String::from_str("Expected ; after expression."),
            Expected::Identifier if at_end => String::from_str("Expected variable name, got EOF"),
            Expected::Equal if at_end => String::from_str("Expected '=', got EOF"),
            _ => {
                let mut message = String::from_str("Expected ");
                message.append(self.expected.words());
                message.append(" actual ");
                message.append(self.found.name());
                match self.found {
                    Category::Error => {
                        assert(message@ + Seq::<char>::empty() =~= message@);
                    },
                    _ => {
                        self.push_place(&mut message);
                    },
                }
                message
            },
        }
    }
}

/// The operator that a token of the given category denotes.
fn token_operator(category: Category) -> (op: Option<Operator>)
    ensures
        op == operator_of(category),
{
    match category {
        Category::Star => Some(Operator::Multiply),
        Category::Slash => Some(Operator::Divide),
        Category::Plus => Some(Operator::Add),
        Category::Minus => Some(Operator::Subtract),
        Category::Greater => Some(Operator::Greater),
        Category::GreaterEqual => Some(Operator::GreaterEqual),
        Category::Less => Some(Operator::Less),
        Category::LessEqual => Some(Operator::LessEqual),
        Category::BangEqual => Some(Operator::BangEqual),
        Category::EqualEqual => Some(Operator::EqualEqual),
        Category::Bang => Some(Operator::Bang),
        Category::And => Some(Operator::And),
        Category::Or => Some(Operator::Or),
        _ => None,
    }
}

/// The precedence level at which an operator stands between two operands.
fn operator_level(op: Operator) -> (level: Option<u8>)
    ensures
        level == level_of(op),
{
    match op {
        Operator::Multiply | Operator::Divide => Some(FACTOR),
        Operator::Add | Operator::Subtract => Some(TERM),
        Operator::Greater | Operator::GreaterEqual | Operator::Less | Operator::LessEqual => Some(
            COMPARISON,
        ),
        Operator::BangEqual | Operator::EqualEqual => Some(EQUALITY),
        Operator::And => Some(AND),
        Operator::Or => Some(OR),
        Operator::Bang | Operator::Power => None,
    }
}

/// Whether a token of the given category is a binary operator of the level.
fn continues(level: u8, category: Category) -> (b: bool)
    ensures
        b == binary_operator(level, category).is_some(),
{
    match token_operator(category) {
        Some(op) => match operator_level(op) {
            Some(found) => found == level,
            None => false,
        },
        None => false,
    }
}

/// A parser over a sequence of tokens that ends with the end of input.  It
/// reads the tokens from left to right and looks one token ahead, two where a
/// statement starts.
pub struct Parser {
    tokens: Vec<Token>,
    pos: usize,
}

/// Whether a parsing function did what the grammar rule `parsed` says: on
/// success it built that tree and stands behind it, on failure it reports
/// that failure and stands at the token that it could not take.  The tokens
/// are never changed.
pub open spec fn agrees<T: View>(
    before: Parser,
    after: Parser,
    result: Result<T, ParseError>,
    parsed: Parsed<T::V>,
) -> bool {
    &&& after.tokens() == before.tokens()
    &&& match parsed {
        Ok((built, behind)) => result.is_ok() && result.unwrap()@ == built && after.position()
            == behind,
        Err(failure) => result == Err::<T, ParseError>(error_at(before.tokens(), failure))
            && after.position() == failure.at,
    }
}

impl Parser {
    #[verifier::type_invariant]
    spec fn closed(self) -> bool {
        &&& self.tokens@.len() > 0
        &&& self.tokens@.last()@.category == Category::EndOfFile
        &&& self.pos < self.tokens@.len()
    }

    /// The tokens that the parser reads.
    #[verifier::opaque]
    pub closed spec fn tokens(self) -> Seq<TokenView> {
        tokens_view(self.tokens@)
    }

    /// The index of the next token.
    pub closed spec fn position(self) -> int {
        self.pos as int
    }

    /// What the grammar reads of the tokens.
    pub open spec fn symbols(self) -> Seq<Symbol> {
        symbols(self.tokens())
    }

    /// A parser over the tokens that the scanner has still to yield, which it
    /// takes from it.
    pub fn new(iter: &mut TokenIter<'_>) -> (parser: Parser)
        ensures
            parser.tokens() == closed_stream(old(iter).remaining()),
            parser.position() == 0,
            final(iter).source() == old(iter).source(),
            final(iter).finished(),
    {
        let mut tokens = iter.collect();
        let ghost taken = tokens_view(tokens@);
        let n: usize = tokens.len();
        if n == 0 || tokens[n - 1].category() != Category::EndOfFile {
            tokens.push(Token::EndOfFile);
            assert(tokens_view(tokens@) =~= taken.push(TokenView::end()));
        }
        let parser = Parser { tokens, pos: 0 };
        proof {
            reveal(Parser::tokens);
        }
        parser
    }

    /// The category of the next token.
    fn category(&self) -> (category: Category)
        ensures
            category == category_at(self.symbols(), self.position()),
            self.position() < self.tokens().len(),
            category != Category::EndOfFile ==> self.position() + 1 < self.tokens().len(),
    {
        proof {
            use_type_invariant(self);
            reveal(Parser::tokens);
        }
        self.tokens[self.pos].category()
    }

    /// The category of the token behind the next one.
    fn category_behind(&self) -> (category: Category)
        ensures
            category == category_at(self.symbols(), self.position() + 1),
    {
        proof {
            use_type_invariant(self);
            reveal(Parser::tokens);
        }
        let n: usize = self.tokens.len();
        if self.pos + 1 < n {
            self.tokens[self.pos + 1].category()
        } else {
            Category::EndOfFile
        }
    }

    /// The payload of the next token, which is a number, a string or a name.
    fn payload(&self) -> (payload: String)
        requires
            category_at(self.symbols(), self.position()).is_literal(),
        ensures
            payload@ == payload_at(self.symbols(), self.position()),
    {
        proof {
            use_type_invariant(self);
            reveal(Parser::tokens);
        }
        String::from_str(self.tokens[self.pos].payload())
    }

    /// Steps over the next token, which is not the end of input.
    fn advance(&mut self)
        requires
            category_at(old(self).symbols(), old(self).position()) != Category::EndOfFile,
        ensures
            final(self).tokens() == old(self).tokens(),
            final(self).position() == old(self).position() + 1,
    {
        proof {
            use_type_invariant(&*self);
            reveal(Parser::tokens);
            // the number of tokens fits the index type
            assert(self.tokens.len() == self.tokens@.len());
        }
        self.pos = self.pos + 1;
    }

    /// The error for a failure at the next token, reported at the token
    /// with the index `mark`.
    fn fail_from(&self, expected: Expected, mark: usize) -> (error: ParseError)
        requires
            mark <= self.position(),
        ensures
            error == error_at(
                self.tokens(),
                Failure { expected, at: self.position(), mark: mark as int },
            ),
    {
        proof {
            use_type_invariant(self);
            reveal(Parser::tokens);
        }
        let (line, column) = self.tokens[mark].position();
        ParseError { expected, found: self.tokens[self.pos].category(), line, column }
    }

    /// The error for a failure at the next token.
    fn fail(&self, expected: Expected) -> (error: ParseError)
        ensures
            error == error_at(
                self.tokens(),
                Failure { expected, at: self.position(), mark: self.position() },
            ),
    {
        self.fail_from(expected, self.pos)
    }

    /// Takes the next token if it is of the category asked for, and fails at
    /// it otherwise.
    fn assert_next(&mut self, category: Category, expected: Expected) -> (result: Result<
        (),
        ParseError,
    >)
        requires
            category != Category::EndOfFile,
        ensures
            final(self).tokens() == old(self).tokens(),
            category_at(old(self).symbols(), old(self).position()) == category ==> result.is_ok()
                && final(self).position() == old(self).position() + 1,
            category_at(old(self).symbols(), old(self).position()) != category ==> result == Err::<
                (),
                ParseError,
            >(
                error_at(
                    old(self).tokens(),
                    Failure { expected, at: old(self).position(), mark: old(self).position() },
                ),
            )
                && final(self).position() == old(self).position(),
    {
        if self.category() == category {
            self.advance();
            Ok(())
        } else {
            Err(self.fail(expected))
        }
    }

    /// Takes the next token, which has to be an operator, and gives the
    /// operator that it denotes.
    pub fn operator(&mut self) -> (result: Result<Operator, ParseError>)
        ensures
            final(self).tokens() == old(self).tokens(),
            match operator_of(category_at(old(self).symbols(), old(self).position())) {
                Some(op) => result == Ok::<Operator, ParseError>(op) && final(self).position()
                    == old(self).position() + 1,
                None => result == Err::<Operator, ParseError>(
                    error_at(
                        old(self).tokens(),
                        Failure {
                            expected: Expected::Operator,
                            at: old(self).position(),
                            mark: old(self).position(),
                        },
                    ),
                ) && final(self).position() == old(self).position(),
            },
    {
        match token_operator(self.category()) {
            Some(op) => {
                self.advance();
                Ok(op)
            },
            None => Err(self.fail(Expected::Operator)),
        }
    }

    fn primary(&mut self) -> (result: Result<Expression, ParseError>)
        ensures
            agrees(
                *old(self),
                *final(self),
                result,
                primary(old(self).symbols(), old(self).position()),
            ),
            result.is_ok() ==> final(self).position() > old(self).position(),
        decreases old(self).tokens().len() - old(self).position(), 0nat,
    {
        match self.category() {
            Category::Number => {
                let e = Expression::Number(self.payload());
                self.advance();
                Ok(e)
            },
            Category::String => {
                let e = Expression::String(self.payload());
                self.advance();
                Ok(e)
            },
            Category::Identifier => {
                let e = Expression::Identifier(self.payload());
                self.advance();
                Ok(e)
            },
            Category::True => {
                self.advance();
                Ok(Expression::Boolean(true))
            },
            Category::False => {
                self.advance();
                Ok(Expression::Boolean(false))
            },
            Category::Nil => {
                self.advance();
                Ok(Expression::Nil)
            },
            Category::LeftParen => {
                let opened: usize = self.pos;
                self.advance();
                let inner = self.expression()?;
                if self.category() != Category::RightParen {
                    return Err(self.fail_from(Expected::RightParen, opened));
                }
                self.advance();
                Ok(Expression::Group(Box::new(inner)))
            },
            _ => Err(self.fail(Expected::Expression)),
        }
    }

    fn uanary(&mut self) -> (result: Result<Expression, ParseError>)
        ensures
            agrees(
                *old(self),
                *final(self),
                result,
                unary(old(self).symbols(), old(self).position()),
            ),
            result.is_ok() ==> final(self).position() > old(self).position(),
        decreases old(self).tokens().len() - old(self).position(), 1nat,
    {
        match self.category() {
            Category::Bang => {
                self.advance();
                Ok(Expression::Unary(Operator::Bang, Box::new(self.uanary()?)))
            },
            Category::Minus => {
                self.advance();
                Ok(Expression::Unary(Operator::Subtract, Box::new(self.uanary()?)))
            },
            _ => self.primary(),
        }
    }

    /// An operand of the binary level `level`.
    fn operand(&mut self, level: u8) -> (result: Result<Expression, ParseError>)
        requires
            level <= OR,
        ensures
            agrees(
                *old(self),
                *final(self),
                result,
                operand(old(self).symbols(), old(self).position(), level),
            ),
            result.is_ok() ==> final(self).position() > old(self).position(),
        decreases old(self).tokens().len() - old(self).position(), 3 * level + 2,
    {
        if level == FACTOR {
            self.uanary()
        } else if level == TERM {
            self.factor()
        } else if level == COMPARISON {
            self.term()
        } else if level == EQUALITY {
            self.comparison()
        } else if level == AND {
            self.equality()
        } else {
            self.and()
        }
    }

    /// A binary level: an operand, and then as long as an operator of the
    /// level follows, that operator and one more operand.  The operations
    /// nest to the left.
    fn binary(&mut self, level: u8) -> (result: Result<Expression, ParseError>)
        requires
            level <= OR,
        ensures
            agrees(
                *old(self),
                *final(self),
                result,
                binary(old(self).symbols(), old(self).position(), level),
            ),
            result.is_ok() ==> final(self).position() > old(self).position(),
        decreases old(self).tokens().len() - old(self).position(), 3 * level + 3,
    {
        let ghost ss = self.symbols();
        let ghost start = self.position();
        let mut left = self.operand(level)?;
        proof {
            use_type_invariant(&*self);
            assert(0 <= self.position() < self.tokens().len()) by {
                reveal(Parser::tokens);
            }
        }
        loop
            invariant
                level <= OR,
                ss == old(self).symbols(),
                start == old(self).position(),
                self.tokens() == old(self).tokens(),
                start < self.position() < self.tokens().len(),
                binary_rest(ss, self.position(), level, left@) == binary(ss, start, level),
            decreases self.tokens().len() - self.position(),
        {
            let category = self.category();
            if !continues(level, category) {
                return Ok(left);
            }
            let op = self.operator()?;
            let right = self.operand(level)?;
            proof {
                use_type_invariant(&*self);
            assert(0 <= self.position() < self.tokens().len()) by {
                reveal(Parser::tokens);
            }
            }
            left = Expression::Binary(Box::new(left), op, Box::new(right));
        }
    }

    fn factor(&mut self) -> (result: Result<Expression, ParseError>)
        ensures
            agrees(
                *old(self),
                *final(self),
                result,
                binary(old(self).symbols(), old(self).position(), FACTOR),
            ),
            result.is_ok() ==> final(self).position() > old(self).position(),
        decreases old(self).tokens().len() - old(self).position(), 3 * FACTOR + 4,
    {
        self.binary(FACTOR)
    }

    fn term(&mut self) -> (result: Result<Expression, ParseError>)
        ensures
            agrees(
                *old(self),
                *final(self),
                result,
                binary(old(self).symbols(), old(self).position(), TERM),
            ),
            result.is_ok() ==> final(self).position() > old(self).position(),
        decreases old(self).tokens().len() - old(self).position(), 3 * TERM + 4,
    {
        self.binary(TERM)
    }

    fn comparison(&mut self) -> (result: Result<Expression, ParseError>)
        ensures
            agrees(
                *old(self),
                *final(self),
                result,
                binary(old(self).symbols(), old(self).position(), COMPARISON),
            ),
            result.is_ok() ==> final(self).position() > old(self).position(),
        decreases old(self).tokens().len() - old(self).position(), 3 * COMPARISON + 4,
    {
        self.binary(COMPARISON)
    }

    fn equality(&mut self) -> (result: Result<Expression, ParseError>)
        ensures
            agrees(
                *old(self),
                *final(self),
                result,
                binary(old(self).symbols(), old(self).position(), EQUALITY),
            ),
            result.is_ok() ==> final(self).position() > old(self).position(),
        decreases old(self).tokens().len() - old(self).position(), 3 * EQUALITY + 4,
    {
        self.binary(EQUALITY)
    }

    fn and(&mut self) -> (result: Result<Expression, ParseError>)
        ensures
            agrees(
                *old(self),
                *final(self),
                result,
                binary(old(self).symbols(), old(self).position(), AND),
            ),
            result.is_ok() ==> final(self).position() > old(self).position(),
        decreases old(self).tokens().len() - old(self).position(), 3 * AND + 4,
    {
        self.binary(AND)
    }

    fn or(&mut self) -> (result: Result<Expression, ParseError>)
        ensures
            agrees(
                *old(self),
                *final(self),
                result,
                binary(old(self).symbols(), old(self).position(), OR),
            ),
            result.is_ok() ==> final(self).position() > old(self).position(),
        decreases old(self).tokens().len() - old(self).position(), 3 * OR + 4,
    {
        self.binary(OR)
    }

    fn expression(&mut self) -> (result: Result<Expression, ParseError>)
        ensures
            agrees(
                *old(self),
                *final(self),
                result,
                expression(old(self).symbols(), old(self).position()),
            ),
            result.is_ok() ==> final(self).position() > old(self).position(),
        decreases old(self).tokens().len() - old(self).position(), 3 * OR + 5,
    {
        let expr = self.or()?;
        Ok(expr)
    }

    /// An expression and the `;` behind it.
    fn terminated(&mut self) -> (result: Result<Expression, ParseError>)
        ensures
            agrees(
                *old(self),
                *final(self),
                result,
                terminated(old(self).symbols(), old(self).position()),
            ),
            result.is_ok() ==> final(self).position() > old(self).position(),
    {
        let expr = self.expression()?;
        self.assert_next(Category::Semicolon, Expected::Semicolon)?;
        Ok(expr)
    }

    fn print_stmt(&mut self) -> (result: Result<Statement, ParseError>)
        requires
            category_at(old(self).symbols(), old(self).position()) == Category::Print,
        ensures
            agrees(
                *old(self),
                *final(self),
                result,
                statement(old(self).symbols(), old(self).position()),
            ),
            result.is_ok() ==> final(self).position() > old(self).position(),
    {
        self.advance();
        let print_stmt = self.terminated()?;
        Ok(Statement::Print(Box::new(print_stmt)))
    }

    fn expr_stmt(&mut self) -> (result: Result<Statement, ParseError>)
        requires
            ({
                let ss = old(self).symbols();
                let pos = old(self).position();
                &&& category_at(ss, pos) != Category::Print
                &&& category_at(ss, pos) != Category::Var
                &&& !(category_at(ss, pos) == Category::Identifier && category_at(ss, pos + 1)
                    == Category::Equal)
            }),
        ensures
            agrees(
                *old(self),
                *final(self),
                result,
                statement(old(self).symbols(), old(self).position()),
            ),
            result.is_ok() ==> final(self).position() > old(self).position(),
    {
        let expr_stmt = self.terminated()?;
        Ok(Statement::ExprStmt(Box::new(expr_stmt)))
    }

    /// `var` NAME `=` expression `;`
    fn declaration(&mut self) -> (result: Result<Statement, ParseError>)
        requires
            category_at(old(self).symbols(), old(self).position()) == Category::Var,
        ensures
            agrees(
                *old(self),
                *final(self),
                result,
                statement(old(self).symbols(), old(self).position()),
            ),
            result.is_ok() ==> final(self).position() > old(self).position(),
    {
        self.advance();
        if self.category() != Category::Identifier {
            return Err(self.fail(Expected::Identifier));
        }
        let name = self.payload();
        self.advance();
        self.assert_next(Category::Equal, Expected::Equal)?;
        let value = self.terminated()?;
        Ok(Statement::Declaration(name, Box::new(value)))
    }

    /// NAME `=` expression `;`
    fn assignment(&mut self) -> (result: Result<Statement, ParseError>)
        requires
            category_at(old(self).symbols(), old(self).position()) == Category::Identifier,
            category_at(old(self).symbols(), old(self).position() + 1) == Category::Equal,
        ensures
            agrees(
                *old(self),
                *final(self),
                result,
                statement(old(self).symbols(), old(self).position()),
            ),
            result.is_ok() ==> final(self).position() > old(self).position(),
    {
        let name = self.payload();
        self.advance();
        self.advance();
        let value = self.terminated()?;
        Ok(Statement::Declaration(name, Box::new(value)))
    }

    fn statement(&mut self) -> (result: Result<Statement, ParseError>)
        ensures
            agrees(
                *old(self),
                *final(self),
                result,
                statement(old(self).symbols(), old(self).position()),
            ),
            result.is_ok() ==> final(self).position() > old(self).position(),
    {
        let next = self.category();
        match next {
            Category::Print => self.print_stmt(),
            Category::Var => self.declaration(),
            Category::Identifier => {
                if self.category_behind() == Category::Equal {
                    self.assignment()
                } else {
                    self.expr_stmt()
                }
            },
            _ => self.expr_stmt(),
        }
    }

    fn program(&mut self) -> (result: Result<Statement, ParseError>)
        ensures
            final(self).tokens() == old(self).tokens(),
            match program(old(self).symbols(), old(self).position()) {
                Ok((statements, behind)) => result.is_ok() && result.unwrap()@
                    == StatementView::Program(statements) && final(self).position() == behind,
                Err(failure) => result == Err::<Statement, ParseError>(
                    error_at(old(self).tokens(), failure),
                ) && final(self).position() == failure.at,
            },
    {
        let ghost ss = self.symbols();
        let ghost start = self.position();
        let ghost done: Seq<StatementView> = Seq::empty();
        let mut statements: Vec<Statement> = Vec::new();
        proof {
            use_type_invariant(&*self);
            assert(0 <= self.position() < self.tokens().len()) by {
                reveal(Parser::tokens);
            }
        }
        loop
            invariant
                ss == old(self).symbols(),
                start == old(self).position(),
                self.tokens() == old(self).tokens(),
                self.position() < self.tokens().len(),
                done.len() == statements@.len(),
                forall|i: int| 0 <= i < done.len() ==> statements@[i]@ == #[trigger] done[i],
                program(ss, start) == match program(ss, self.position()) {
                    Ok((rest, behind)) => Ok((done + rest, behind)),
                    Err(failure) => Err(failure),
                },
            decreases self.tokens().len() - self.position(),
        {
            if self.category() == Category::EndOfFile {
                let built = Statement::Program(statements);
                assert(built@ =~= StatementView::Program(done)) by {
                    assert(built@->Program_0 =~= done);
                }
                assert(done + Seq::<StatementView>::empty() =~= done);
                return Ok(built);
            }
            let first = self.statement()?;
            proof {
                use_type_invariant(&*self);
            assert(0 <= self.position() < self.tokens().len()) by {
                reveal(Parser::tokens);
            }
                match program(ss, self.position()) {
                    Ok((rest, _)) => {
                        assert(done.push(first@) + rest =~= done + (seq![first@] + rest));
                    },
                    Err(_) => {},
                }
                done = done.push(first@);
            }
            statements.push(first);
        }
    }

    /// Parses the tokens as a program: statements up to the end of input.
    /// The result is a `Statement::Program`.  The first failure ends the
    /// parse.
    pub fn parse_program(&mut self) -> (result: Result<Statement, ParseError>)
        ensures
            final(self).tokens() == old(self).tokens(),
            match program(old(self).symbols(), old(self).position()) {
                Ok((statements, behind)) => result.is_ok() && result.unwrap()@
                    == StatementView::Program(statements) && final(self).position() == behind,
                Err(failure) => result == Err::<Statement, ParseError>(
                    error_at(old(self).tokens(), failure),
                ) && final(self).position() == failure.at,
            },
    {
        let ast = self.program()?;
        Ok(ast)
    }

    /// Parses one expression from the next token on.  On success the parser
    /// stands behind the expression; what follows it is not looked at.  On
    /// failure it stands at the token that it could not take.
    pub fn parse(&mut self) -> (result: Result<Expression, ParseError>)
        ensures
            agrees(
                *old(self),
                *final(self),
                result,
                expression(old(self).symbols(), old(self).position()),
            ),
    {
        let ast = self.expression()?;
        Ok(ast)
    }
}

/// The tokens of a source end with the end of input, so that a parser over
/// them reads exactly them.
pub proof fn lemma_scan_is_closed(src: Seq<char>)
    ensures
        closed_stream(scan(src)) == scan(src),
{
    lemma_tokens_end(src, Cursor::start());
}

} // verus!
