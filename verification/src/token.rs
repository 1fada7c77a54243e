//! Tokens: the lexical units that the scanner hands to the parser.

use crate::text::{Fragment, FragmentView};
use vstd::prelude::*;
use vstd::string::StringExecFns;

verus! {

/// The category of a token: which punctuation mark, operator, literal or
/// keyword it is.
#[derive(Debug, Clone, Copy, PartialEq, Eq, Structural)]
pub enum Category {
    LeftParen,
    RightParen,
    LeftBrace,
    RightBrace,
    Star,
    Dot,
    Comma,
    Plus,
    Minus,
    Semicolon,
    Slash,
    Equal,
    EqualEqual,
    Bang,
    BangEqual,
    Less,
    LessEqual,
    Greater,
    GreaterEqual,
    Colon,
    Error,
    Number,
    Identifier,
    String,
    And,
    Class,
    Else,
    False,
    For,
    Fun,
    If,
    Nil,
    Or,
    Print,
    Return,
    Super,
    This,
    True,
    Var,
    While,
    EndOfFile,
}

/// A token of the source text.
///
/// Every token but `Error` and `EndOfFile` carries its lexeme, the line it
/// starts on (counted from 1) and the column it starts at (the number of
/// characters before it on that line).  `Number` carries the numeral as
/// written, `Identifier` its name, `String` the text between the quotes and
/// `Error` a diagnostic message.
#[derive(Debug, PartialEq, Clone)]
pub enum Token {
    LeftParen(String, u32, u32),
    RightParen(String, u32, u32),
    LeftBrace(String, u32, u32),
    RightBrace(String, u32, u32),
    Star(String, u32, u32),
    Dot(String, u32, u32),
    Comma(String, u32, u32),
    Plus(String, u32, u32),
    Minus(String, u32, u32),
    Semicolon(String, u32, u32),
    Slash(String, u32, u32),
    Equal(String, u32, u32),
    EqualEqual(String, u32, u32),
    Bang(String, u32, u32),
    BangEqual(String, u32, u32),
    Less(String, u32, u32),
    LessEqual(String, u32, u32),
    Greater(String, u32, u32),
    GreaterEqual(String, u32, u32),
    Colon(String, u32, u32),
    Error(String),
    Number(String, u32, u32, String),
    Identifier(String, u32, u32, String),
    String(String, u32, u32, String),
    And(String, u32, u32),
    Class(String, u32, u32),
    Else(String, u32, u32),
    False(String, u32, u32),
    For(String, u32, u32),
    Fun(String, u32, u32),
    If(String, u32, u32),
    Nil(String, u32, u32),
    Or(String, u32, u32),
    Print(String, u32, u32),
    Return(String, u32, u32),
    Super(String, u32, u32),
    This(String, u32, u32),
    True(String, u32, u32),
    Var(String, u32, u32),
    While(String, u32, u32),
    EndOfFile,
}

/// Mathematical model of a [`Token`].
///
/// `lexeme`, `line` and `column` are empty and zero for the two categories that
/// carry no position; `payload` is empty for the categories that carry none.
pub struct TokenView {
    pub category: Category,
    pub lexeme: Seq<char>,
    pub line: u32,
    pub column: u32,
    pub payload: Seq<char>,
}

/// The literal value that a token denotes.
#[derive(Debug, Clone, PartialEq)]
pub enum Literal {
    Null,
    /// A number, by its numeral.
    Number(String),
    String(String),
}

/// Mathematical model of a [`Literal`].
pub enum LiteralView {
    Null,
    Number(Seq<char>),
    String(Seq<char>),
}

impl View for Literal {
    type V = LiteralView;

    open spec fn view(&self) -> LiteralView {
        match self {
            Literal::Null => LiteralView::Null,
            Literal::Number(n) => LiteralView::Number(n@),
            Literal::String(s) => LiteralView::String(s@),
        }
    }
}

impl LiteralView {
    /// The text of a literal on its own.
    pub open spec fn text(self) -> FragmentView {
        match self {
            LiteralView::Null => FragmentView::Text("NULL"@),
            LiteralView::Number(n) => FragmentView::Numeral(n),
            LiteralView::String(s) => FragmentView::Text(s),
        }
    }
}

impl Literal {
    /// Renders the literal on its own: `NULL` for none, the number in its
    /// plain form for a numeral, the characters for a string.
    pub fn text(&self) -> (fragment: Fragment)
        ensures
            fragment@ == self@.text(),
    {
        match self {
            Literal::Null => Fragment::Text(String::from_str("NULL")),
            Literal::Number(n) => Fragment::Numeral(n.clone()),
            Literal::String(s) => Fragment::Text(s.clone()),
        }
    }
}

impl Category {
    /// Whether tokens of this category carry a lexeme and a position.
    pub open spec fn has_position(self) -> bool {
        self != Category::Error && self != Category::EndOfFile
    }

    /// Whether tokens of this category write a leaf of the syntax tree with
    /// their payload: a number, a string or a name.
    pub open spec fn is_literal(self) -> bool {
        self == Category::Number || self == Category::Identifier || self == Category::String
    }

    /// Whether tokens of this category carry a payload.
    pub open spec fn has_payload(self) -> bool {
        self == Category::Number || self == Category::Identifier || self == Category::String
            || self == Category::Error
    }

    /// The name under which the category appears in a token listing.
    pub open spec fn name_spec(self) -> Seq<char> {
        match self {
            Category::LeftParen => "LEFT_PAREN"@,
            Category::RightParen => "RIGHT_PAREN"@,
            Category::LeftBrace => "LEFT_BRACE"@,
            Category::RightBrace => "RIGHT_BRACE"@,
            Category::Star => "STAR"@,
            Category::Dot => "DOT"@,
            Category::Comma => "COMMA"@,
            Category::Plus => "PLUS"@,
            Category::Minus => "MINUS"@,
            Category::Semicolon => "SEMICOLON"@,
            Category::Slash => "SLASH"@,
            Category::Equal => "EQUAL"@,
            Category::EqualEqual => "EQUAL_EQUAL"@,
            Category::Bang => "BANG"@,
            Category::BangEqual => "BANG_EQUAL"@,
            Category::Less => "LESS"@,
            Category::LessEqual => "LESS_EQUAL"@,
            Category::Greater => "GREATER"@,
            Category::GreaterEqual => "GREATER_EQUAL"@,
            Category::Colon => "COLON"@,
            Category::Error => "ERROR"@,
            Category::Number => "NUMBER"@,
            Category::Identifier => "IDENTIFIER"@,
            Category::String => "STRING"@,
            Category::And => "AND"@,
            Category::Class => "CLASS"@,
            Category::Else => "ELSE"@,
            Category::False => "FALSE"@,
            Category::For => "FOR"@,
            Category::Fun => "FUN"@,
            Category::If => "IF"@,
            Category::Nil => "NIL"@,
            Category::Or => "OR"@,
            Category::Print => "PRINT"@,
            Category::Return => "RETURN"@,
            Category::Super => "SUPER"@,
            Category::This => "THIS"@,
            Category::True => "TRUE"@,
            Category::Var => "VAR"@,
            Category::While => "WHILE"@,
            Category::EndOfFile => "EOF"@,
        }
    }

    /// The name under which the category appears in a token listing.
    pub fn name(self) -> (name: &'static str)
        ensures
            name@ == self.name_spec(),
    {
        match self {
            Category::LeftParen => "LEFT_PAREN",
            Category::RightParen => "RIGHT_PAREN",
            Category::LeftBrace => "LEFT_BRACE",
            Category::RightBrace => "RIGHT_BRACE",
            Category::Star => "STAR",
            Category::Dot => "DOT",
            Category::Comma => "COMMA",
            Category::Plus => "PLUS",
            Category::Minus => "MINUS",
            Category::Semicolon => "SEMICOLON",
            Category::Slash => "SLASH",
            Category::Equal => "EQUAL",
            Category::EqualEqual => "EQUAL_EQUAL",
            Category::Bang => "BANG",
            Category::BangEqual => "BANG_EQUAL",
            Category::Less => "LESS",
            Category::LessEqual => "LESS_EQUAL",
            Category::Greater => "GREATER",
            Category::GreaterEqual => "GREATER_EQUAL",
            Category::Colon => "COLON",
            Category::Error => "ERROR",
            Category::Number => "NUMBER",
            Category::Identifier => "IDENTIFIER",
            Category::String => "STRING",
            Category::And => "AND",
            Category::Class => "CLASS",
            Category::Else => "ELSE",
            Category::False => "FALSE",
            Category::For => "FOR",
            Category::Fun => "FUN",
            Category::If => "IF",
            Category::Nil => "NIL",
            Category::Or => "OR",
            Category::Print => "PRINT",
            Category::Return => "RETURN",
            Category::Super => "SUPER",
            Category::This => "THIS",
            Category::True => "TRUE",
            Category::Var => "VAR",
            Category::While => "WHILE",
            Category::EndOfFile => "EOF",
        }
    }
}

impl TokenView {
    /// The token of a category with the given parts; the parts that the
    /// category does not carry are left out.
    pub open spec fn make(
        category: Category,
        lexeme: Seq<char>,
        line: u32,
        column: u32,
        payload: Seq<char>,
    ) -> TokenView {
        TokenView {
            category,
            lexeme: if category.has_position() {
                lexeme
            } else {
                Seq::empty()
            },
            line: if category.has_position() {
                line
            } else {
                0
            },
            column: if category.has_position() {
                column
            } else {
                0
            },
            payload: if category.has_payload() {
                payload
            } else {
                Seq::empty()
            },
        }
    }

    /// The end-of-input token.
    pub open spec fn end() -> TokenView {
        TokenView::make(Category::EndOfFile, Seq::empty(), 0, 0, Seq::empty())
    }

    /// The literal value that the token denotes: the numeral of a number, the
    /// contents of a string, and none for every other category.
    pub open spec fn literal(self) -> LiteralView {
        if self.category == Category::Number {
            LiteralView::Number(self.payload)
        } else if self.category == Category::String {
            LiteralView::String(self.payload)
        } else {
            LiteralView::Null
        }
    }

    /// The line of a token listing that shows this token: the category's
    /// name, the lexeme and the literal (or `null`), separated by single
    /// spaces.  An error token is shown by its message alone.
    pub open spec fn text(self) -> Seq<FragmentView> {
        if self.category == Category::Error {
            seq![FragmentView::Text(self.payload)]
        } else if self.category == Category::EndOfFile {
            seq![FragmentView::Text("EOF  null"@)]
        } else if self.category == Category::Number {
            seq![
                FragmentView::Text(self.category.name_spec() + " "@ + self.lexeme + " "@),
                FragmentView::Literal(self.payload),
            ]
        } else if self.category == Category::String {
            seq![
                FragmentView::Text(
                    self.category.name_spec() + " "@ + self.lexeme + " "@ + self.payload,
                ),
            ]
        } else {
            seq![FragmentView::Text(self.category.name_spec() + " "@ + self.lexeme + " null"@)]
        }
    }
}

impl View for Token {
    type V = TokenView;

    open spec fn view(&self) -> TokenView {
        match self {
            Token::LeftParen(lexeme, line, column) => TokenView::make(Category::LeftParen, lexeme@, *line, *column, Seq::empty()),
            Token::RightParen(lexeme, line, column) => TokenView::make(Category::RightParen, lexeme@, *line, *column, Seq::empty()),
            Token::LeftBrace(lexeme, line, column) => TokenView::make(Category::LeftBrace, lexeme@, *line, *column, Seq::empty()),
            Token::RightBrace(lexeme, line, column) => TokenView::make(Category::RightBrace, lexeme@, *line, *column, Seq::empty()),
            Token::Star(lexeme, line, column) => TokenView::make(Category::Star, lexeme@, *line, *column, Seq::empty()),
            Token::Dot(lexeme, line, column) => TokenView::make(Category::Dot, lexeme@, *line, *column, Seq::empty()),
            Token::Comma(lexeme, line, column) => TokenView::make(Category::Comma, lexeme@, *line, *column, Seq::empty()),
            Token::Plus(lexeme, line, column) => TokenView::make(Category::Plus, lexeme@, *line, *column, Seq::empty()),
            Token::Minus(lexeme, line, column) => TokenView::make(Category::Minus, lexeme@, *line, *column, Seq::empty()),
            Token::Semicolon(lexeme, line, column) => TokenView::make(Category::Semicolon, lexeme@, *line, *column, Seq::empty()),
            Token::Slash(lexeme, line, column) => TokenView::make(Category::Slash, lexeme@, *line, *column, Seq::empty()),
            Token::Equal(lexeme, line, column) => TokenView::make(Category::Equal, lexeme@, *line, *column, Seq::empty()),
            Token::EqualEqual(lexeme, line, column) => TokenView::make(Category::EqualEqual, lexeme@, *line, *column, Seq::empty()),
            Token::Bang(lexeme, line, column) => TokenView::make(Category::Bang, lexeme@, *line, *column, Seq::empty()),
            Token::BangEqual(lexeme, line, column) => TokenView::make(Category::BangEqual, lexeme@, *line, *column, Seq::empty()),
            Token::Less(lexeme, line, column) => TokenView::make(Category::Less, lexeme@, *line, *column, Seq::empty()),
            Token::LessEqual(lexeme, line, column) => TokenView::make(Category::LessEqual, lexeme@, *line, *column, Seq::empty()),
            Token::Greater(lexeme, line, column) => TokenView::make(Category::Greater, lexeme@, *line, *column, Seq::empty()),
            Token::GreaterEqual(lexeme, line, column) => TokenView::make(Category::GreaterEqual, lexeme@, *line, *column, Seq::empty()),
            Token::Colon(lexeme, line, column) => TokenView::make(Category::Colon, lexeme@, *line, *column, Seq::empty()),
            Token::Error(message) => TokenView::make(Category::Error, Seq::empty(), 0, 0, message@),
            Token::Number(lexeme, line, column, payload) => TokenView::make(Category::Number, lexeme@, *line, *column, payload@),
            Token::Identifier(lexeme, line, column, payload) => TokenView::make(Category::Identifier, lexeme@, *line, *column, payload@),
            Token::String(lexeme, line, column, payload) => TokenView::make(Category::String, lexeme@, *line, *column, payload@),
            Token::And(lexeme, line, column) => TokenView::make(Category::And, lexeme@, *line, *column, Seq::empty()),
            Token::Class(lexeme, line, column) => TokenView::make(Category::Class, lexeme@, *line, *column, Seq::empty()),
            Token::Else(lexeme, line, column) => TokenView::make(Category::Else, lexeme@, *line, *column, Seq::empty()),
            Token::False(lexeme, line, column) => TokenView::make(Category::False, lexeme@, *line, *column, Seq::empty()),
            Token::For(lexeme, line, column) => TokenView::make(Category::For, lexeme@, *line, *column, Seq::empty()),
            Token::Fun(lexeme, line, column) => TokenView::make(Category::Fun, lexeme@, *line, *column, Seq::empty()),
            Token::If(lexeme, line, column) => TokenView::make(Category::If, lexeme@, *line, *column, Seq::empty()),
            Token::Nil(lexeme, line, column) => TokenView::make(Category::Nil, lexeme@, *line, *column, Seq::empty()),
            Token::Or(lexeme, line, column) => TokenView::make(Category::Or, lexeme@, *line, *column, Seq::empty()),
            Token::Print(lexeme, line, column) => TokenView::make(Category::Print, lexeme@, *line, *column, Seq::empty()),
            Token::Return(lexeme, line, column) => TokenView::make(Category::Return, lexeme@, *line, *column, Seq::empty()),
            Token::Super(lexeme, line, column) => TokenView::make(Category::Super, lexeme@, *line, *column, Seq::empty()),
            Token::This(lexeme, line, column) => TokenView::make(Category::This, lexeme@, *line, *column, Seq::empty()),
            Token::True(lexeme, line, column) => TokenView::make(Category::True, lexeme@, *line, *column, Seq::empty()),
            Token::Var(lexeme, line, column) => TokenView::make(Category::Var, lexeme@, *line, *column, Seq::empty()),
            Token::While(lexeme, line, column) => TokenView::make(Category::While, lexeme@, *line, *column, Seq::empty()),
            Token::EndOfFile => TokenView::end(),
        }
    }
}

impl Token {
    /// Builds the token of a category from its parts.  The parts that the
    /// category does not carry are dropped.
    pub fn new(category: Category, lexeme: String, line: u32, column: u32, payload: String) -> (token:
        Token)
        ensures
            token@ == TokenView::make(category, lexeme@, line, column, payload@),
    {
        match category {
            Category::LeftParen => Token::LeftParen(lexeme, line, column),
            Category::RightParen => Token::RightParen(lexeme, line, column),
            Category::LeftBrace => Token::LeftBrace(lexeme, line, column),
            Category::RightBrace => Token::RightBrace(lexeme, line, column),
            Category::Star => Token::Star(lexeme, line, column),
            Category::Dot => Token::Dot(lexeme, line, column),
            Category::Comma => Token::Comma(lexeme, line, column),
            Category::Plus => Token::Plus(lexeme, line, column),
            Category::Minus => Token::Minus(lexeme, line, column),
            Category::Semicolon => Token::Semicolon(lexeme, line, column),
            Category::Slash => Token::Slash(lexeme, line, column),
            Category::Equal => Token::Equal(lexeme, line, column),
            Category::EqualEqual => Token::EqualEqual(lexeme, line, column),
            Category::Bang => Token::Bang(lexeme, line, column),
            Category::BangEqual => Token::BangEqual(lexeme, line, column),
            Category::Less => Token::Less(lexeme, line, column),
            Category::LessEqual => Token::LessEqual(lexeme, line, column),
            Category::Greater => Token::Greater(lexeme, line, column),
            Category::GreaterEqual => Token::GreaterEqual(lexeme, line, column),
            Category::Colon => Token::Colon(lexeme, line, column),
            Category::Error => Token::Error(payload),
            Category::Number => Token::Number(lexeme, line, column, payload),
            Category::Identifier => Token::Identifier(lexeme, line, column, payload),
            Category::String => Token::String(lexeme, line, column, payload),
            Category::And => Token::And(lexeme, line, column),
            Category::Class => Token::Class(lexeme, line, column),
            Category::Else => Token::Else(lexeme, line, column),
            Category::False => Token::False(lexeme, line, column),
            Category::For => Token::For(lexeme, line, column),
            Category::Fun => Token::Fun(lexeme, line, column),
            Category::If => Token::If(lexeme, line, column),
            Category::Nil => Token::Nil(lexeme, line, column),
            Category::Or => Token::Or(lexeme, line, column),
            Category::Print => Token::Print(lexeme, line, column),
            Category::Return => Token::Return(lexeme, line, column),
            Category::Super => Token::Super(lexeme, line, column),
            Category::This => Token::This(lexeme, line, column),
            Category::True => Token::True(lexeme, line, column),
            Category::Var => Token::Var(lexeme, line, column),
            Category::While => Token::While(lexeme, line, column),
            Category::EndOfFile => Token::EndOfFile,
        }
    }

    /// The category of the token.
    pub fn category(&self) -> (category: Category)
        ensures
            category == self@.category,
    {
        match self {
            Token::LeftParen(_, _, _) => Category::LeftParen,
            Token::RightParen(_, _, _) => Category::RightParen,
            Token::LeftBrace(_, _, _) => Category::LeftBrace,
            Token::RightBrace(_, _, _) => Category::RightBrace,
            Token::Star(_, _, _) => Category::Star,
            Token::Dot(_, _, _) => Category::Dot,
            Token::Comma(_, _, _) => Category::Comma,
            Token::Plus(_, _, _) => Category::Plus,
            Token::Minus(_, _, _) => Category::Minus,
            Token::Semicolon(_, _, _) => Category::Semicolon,
            Token::Slash(_, _, _) => Category::Slash,
            Token::Equal(_, _, _) => Category::Equal,
            Token::EqualEqual(_, _, _) => Category::EqualEqual,
            Token::Bang(_, _, _) => Category::Bang,
            Token::BangEqual(_, _, _) => Category::BangEqual,
            Token::Less(_, _, _) => Category::Less,
            Token::LessEqual(_, _, _) => Category::LessEqual,
            Token::Greater(_, _, _) => Category::Greater,
            Token::GreaterEqual(_, _, _) => Category::GreaterEqual,
            Token::Colon(_, _, _) => Category::Colon,
            Token::Error(_) => Category::Error,
            Token::Number(_, _, _, _) => Category::Number,
            Token::Identifier(_, _, _, _) => Category::Identifier,
            Token::String(_, _, _, _) => Category::String,
            Token::And(_, _, _) => Category::And,
            Token::Class(_, _, _) => Category::Class,
            Token::Else(_, _, _) => Category::Else,
            Token::False(_, _, _) => Category::False,
            Token::For(_, _, _) => Category::For,
            Token::Fun(_, _, _) => Category::Fun,
            Token::If(_, _, _) => Category::If,
            Token::Nil(_, _, _) => Category::Nil,
            Token::Or(_, _, _) => Category::Or,
            Token::Print(_, _, _) => Category::Print,
            Token::Return(_, _, _) => Category::Return,
            Token::Super(_, _, _) => Category::Super,
            Token::This(_, _, _) => Category::This,
            Token::True(_, _, _) => Category::True,
            Token::Var(_, _, _) => Category::Var,
            Token::While(_, _, _) => Category::While,
            Token::EndOfFile => Category::EndOfFile,
        }
    }

    /// The lexeme of the token: the characters of the source that it was read
    /// from.  Empty for an error and for the end of input.
    pub fn lexeme(&self) -> (lexeme: &str)
        ensures
            lexeme@ == self@.lexeme,
    {
        proof {
            reveal_strlit("");
        }
        match self {
            Token::Error(_) => "",
            Token::EndOfFile => "",
            Token::Number(lexeme, _, _, _) => lexeme.as_str(),
            Token::Identifier(lexeme, _, _, _) => lexeme.as_str(),
            Token::String(lexeme, _, _, _) => lexeme.as_str(),
            Token::LeftParen(lexeme, _, _) => lexeme.as_str(),
            Token::RightParen(lexeme, _, _) => lexeme.as_str(),
            Token::LeftBrace(lexeme, _, _) => lexeme.as_str(),
            Token::RightBrace(lexeme, _, _) => lexeme.as_str(),
            Token::Star(lexeme, _, _) => lexeme.as_str(),
            Token::Dot(lexeme, _, _) => lexeme.as_str(),
            Token::Comma(lexeme, _, _) => lexeme.as_str(),
            Token::Plus(lexeme, _, _) => lexeme.as_str(),
            Token::Minus(lexeme, _, _) => lexeme.as_str(),
            Token::Semicolon(lexeme, _, _) => lexeme.as_str(),
            Token::Slash(lexeme, _, _) => lexeme.as_str(),
            Token::Equal(lexeme, _, _) => lexeme.as_str(),
            Token::EqualEqual(lexeme, _, _) => lexeme.as_str(),
            Token::Bang(lexeme, _, _) => lexeme.as_str(),
            Token::BangEqual(lexeme, _, _) => lexeme.as_str(),
            Token::Less(lexeme, _, _) => lexeme.as_str(),
            Token::LessEqual(lexeme, _, _) => lexeme.as_str(),
            Token::Greater(lexeme, _, _) => lexeme.as_str(),
            Token::GreaterEqual(lexeme, _, _) => lexeme.as_str(),
            Token::Colon(lexeme, _, _) => lexeme.as_str(),
            Token::And(lexeme, _, _) => lexeme.as_str(),
            Token::Class(lexeme, _, _) => lexeme.as_str(),
            Token::Else(lexeme, _, _) => lexeme.as_str(),
            Token::False(lexeme, _, _) => lexeme.as_str(),
            Token::For(lexeme, _, _) => lexeme.as_str(),
            Token::Fun(lexeme, _, _) => lexeme.as_str(),
            Token::If(lexeme, _, _) => lexeme.as_str(),
            Token::Nil(lexeme, _, _) => lexeme.as_str(),
            Token::Or(lexeme, _, _) => lexeme.as_str(),
            Token::Print(lexeme, _, _) => lexeme.as_str(),
            Token::Return(lexeme, _, _) => lexeme.as_str(),
            Token::Super(lexeme, _, _) => lexeme.as_str(),
            Token::This(lexeme, _, _) => lexeme.as_str(),
            Token::True(lexeme, _, _) => lexeme.as_str(),
            Token::Var(lexeme, _, _) => lexeme.as_str(),
            Token::While(lexeme, _, _) => lexeme.as_str(),
        }
    }

    /// The line and the column at which the token starts; `(0, 0)` for an
    /// error and for the end of input, which carry no position.
    pub fn position(&self) -> (position: (u32, u32))
        ensures
            position == (self@.line, self@.column),
    {
        match self {
            Token::Error(_) => (0, 0),
            Token::EndOfFile => (0, 0),
            Token::Number(_, line, column, _) => (*line, *column),
            Token::Identifier(_, line, column, _) => (*line, *column),
            Token::String(_, line, column, _) => (*line, *column),
            Token::LeftParen(_, line, column) => (*line, *column),
            Token::RightParen(_, line, column) => (*line, *column),
            Token::LeftBrace(_, line, column) => (*line, *column),
            Token::RightBrace(_, line, column) => (*line, *column),
            Token::Star(_, line, column) => (*line, *column),
            Token::Dot(_, line, column) => (*line, *column),
            Token::Comma(_, line, column) => (*line, *column),
            Token::Plus(_, line, column) => (*line, *column),
            Token::Minus(_, line, column) => (*line, *column),
            Token::Semicolon(_, line, column) => (*line, *column),
            Token::Slash(_, line, column) => (*line, *column),
            Token::Equal(_, line, column) => (*line, *column),
            Token::EqualEqual(_, line, column) => (*line, *column),
            Token::Bang(_, line, column) => (*line, *column),
            Token::BangEqual(_, line, column) => (*line, *column),
            Token::Less(_, line, column) => (*line, *column),
            Token::LessEqual(_, line, column) => (*line, *column),
            Token::Greater(_, line, column) => (*line, *column),
            Token::GreaterEqual(_, line, column) => (*line, *column),
            Token::Colon(_, line, column) => (*line, *column),
            Token::And(_, line, column) => (*line, *column),
            Token::Class(_, line, column) => (*line, *column),
            Token::Else(_, line, column) => (*line, *column),
            Token::False(_, line, column) => (*line, *column),
            Token::For(_, line, column) => (*line, *column),
            Token::Fun(_, line, column) => (*line, *column),
            Token::If(_, line, column) => (*line, *column),
            Token::Nil(_, line, column) => (*line, *column),
            Token::Or(_, line, column) => (*line, *column),
            Token::Print(_, line, column) => (*line, *column),
            Token::Return(_, line, column) => (*line, *column),
            Token::Super(_, line, column) => (*line, *column),
            Token::This(_, line, column) => (*line, *column),
            Token::True(_, line, column) => (*line, *column),
            Token::Var(_, line, column) => (*line, *column),
            Token::While(_, line, column) => (*line, *column),
        }
    }

    /// The payload of the token: the numeral of a number, the name of an
    /// identifier, the contents of a string, the message of an error.  Empty
    /// for every other category.
    pub fn payload(&self) -> (payload: &str)
        ensures
            payload@ == self@.payload,
    {
        proof {
            reveal_strlit("");
        }
        match self {
            Token::Error(message) => message.as_str(),
            Token::Number(_, _, _, payload) => payload.as_str(),
            Token::Identifier(_, _, _, payload) => payload.as_str(),
            Token::String(_, _, _, payload) => payload.as_str(),
            _ => "",
        }
    }

    /// The literal value that the token denotes.
    pub fn literal(&self) -> (literal: Literal)
        ensures
            literal@ == self@.literal(),
    {
        match self {
            Token::Number(_, _, _, payload) => Literal::Number(payload.clone()),
            Token::String(_, _, _, payload) => Literal::String(payload.clone()),
            _ => Literal::Null,
        }
    }

    /// Renders the token as one line of a token listing.
    pub fn to_text(&self) -> (fragments: Vec<Fragment>)
        ensures
            crate::text::fragments_view(fragments@) == self@.text(),
    {
        match self {
            Token::LeftParen(lexeme, _, _) => plain_line("LEFT_PAREN", lexeme),
            Token::RightParen(lexeme, _, _) => plain_line("RIGHT_PAREN", lexeme),
            Token::LeftBrace(lexeme, _, _) => plain_line("LEFT_BRACE", lexeme),
            Token::RightBrace(lexeme, _, _) => plain_line("RIGHT_BRACE", lexeme),
            Token::Star(lexeme, _, _) => plain_line("STAR", lexeme),
            Token::Dot(lexeme, _, _) => plain_line("DOT", lexeme),
            Token::Comma(lexeme, _, _) => plain_line("COMMA", lexeme),
            Token::Plus(lexeme, _, _) => plain_line("PLUS", lexeme),
            Token::Minus(lexeme, _, _) => plain_line("MINUS", lexeme),
            Token::Semicolon(lexeme, _, _) => plain_line("SEMICOLON", lexeme),
            Token::Slash(lexeme, _, _) => plain_line("SLASH", lexeme),
            Token::Equal(lexeme, _, _) => plain_line("EQUAL", lexeme),
            Token::EqualEqual(lexeme, _, _) => plain_line("EQUAL_EQUAL", lexeme),
            Token::Bang(lexeme, _, _) => plain_line("BANG", lexeme),
            Token::BangEqual(lexeme, _, _) => plain_line("BANG_EQUAL", lexeme),
            Token::Less(lexeme, _, _) => plain_line("LESS", lexeme),
            Token::LessEqual(lexeme, _, _) => plain_line("LESS_EQUAL", lexeme),
            Token::Greater(lexeme, _, _) => plain_line("GREATER", lexeme),
            Token::GreaterEqual(lexeme, _, _) => plain_line("GREATER_EQUAL", lexeme),
            Token::Colon(lexeme, _, _) => plain_line("COLON", lexeme),
            Token::Error(message) => line_of(Fragment::Text(message.clone())),
            Token::Number(lexeme, _, _, payload) => {
                let mut head = String::from_str("NUMBER");
                head.append(" ");
                head.append(lexeme.as_str());
                head.append(" ");
                let mut fragments: Vec<Fragment> = Vec::new();
                fragments.push(Fragment::Text(head));
                fragments.push(Fragment::Literal(payload.clone()));
                proof {
                    let shown = crate::text::fragments_view(fragments@);
                    assert(shown.len() == 2);
                    assert(shown[0] == fragments@[0]@);
                    assert(shown[1] == fragments@[1]@);
                    assert(shown =~= self@.text());
                }
                fragments
            },
            Token::Identifier(lexeme, _, _, _) => plain_line("IDENTIFIER", lexeme),
            Token::String(lexeme, _, _, payload) => {
                let mut line = String::from_str("STRING");
                line.append(" ");
                line.append(lexeme.as_str());
                line.append(" ");
                line.append(payload.as_str());
                line_of(Fragment::Text(line))
            },
            Token::And(lexeme, _, _) => plain_line("AND", lexeme),
            Token::Class(lexeme, _, _) => plain_line("CLASS", lexeme),
            Token::Else(lexeme, _, _) => plain_line("ELSE", lexeme),
            Token::False(lexeme, _, _) => plain_line("FALSE", lexeme),
            Token::For(lexeme, _, _) => plain_line("FOR", lexeme),
            Token::Fun(lexeme, _, _) => plain_line("FUN", lexeme),
            Token::If(lexeme, _, _) => plain_line("IF", lexeme),
            Token::Nil(lexeme, _, _) => plain_line("NIL", lexeme),
            Token::Or(lexeme, _, _) => plain_line("OR", lexeme),
            Token::Print(lexeme, _, _) => plain_line("PRINT", lexeme),
            Token::Return(lexeme, _, _) => plain_line("RETURN", lexeme),
            Token::Super(lexeme, _, _) => plain_line("SUPER", lexeme),
            Token::This(lexeme, _, _) => plain_line("THIS", lexeme),
            Token::True(lexeme, _, _) => plain_line("TRUE", lexeme),
            Token::Var(lexeme, _, _) => plain_line("VAR", lexeme),
            Token::While(lexeme, _, _) => plain_line("WHILE", lexeme),
            Token::EndOfFile => line_of(Fragment::Text(String::from_str("EOF  null"))),
        }
    }
}

/// A listing line that consists of one fragment.
fn line_of(fragment: Fragment) -> (fragments: Vec<Fragment>)
    ensures
        crate::text::fragments_view(fragments@) == seq![fragment@],
{
    let mut fragments: Vec<Fragment> = Vec::new();
    fragments.push(fragment);
    assert(crate::text::fragments_view(fragments@) =~= seq![fragment@]);
    fragments
}

/// The listing line of a token without a literal.
fn plain_line(name: &str, lexeme: &String) -> (fragments: Vec<Fragment>)
    ensures
        crate::text::fragments_view(fragments@) == seq![
            FragmentView::Text(name@ + " "@ + lexeme@ + " null"@),
        ],
{
    let mut line = String::from_str(name);
    line.append(" ");
    line.append(lexeme.as_str());
    line.append(" null");
    line_of(Fragment::Text(line))
}

} // verus!
