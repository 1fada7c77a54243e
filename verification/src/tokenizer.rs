//! The scanner: from source text to tokens.
//!
//! The scanner never fails.  A character that starts no token, or a string
//! that is not closed before the input ends, becomes an error token, and
//! scanning goes on behind it.

use crate::text::{chars_of, decimal, push_decimal, slice_text, spells};
use crate::token::{Category, Token, TokenView};
use vstd::prelude::*;
use vstd::string::StringExecFns;

verus! {

/// A class of characters of which a lexical item takes a maximal run.
#[derive(Debug, Clone, Copy, PartialEq, Eq, Structural)]
pub enum CharClass {
    /// The decimal digits.
    Digit,
    /// The characters that carry a word on: ASCII letters, decimal digits,
    /// `_`, and the letters and numbers of every other script.
    Word,
    /// Everything but the double quote.
    StringBody,
    /// Everything but the line feed.
    CommentBody,
}

/// Whether `c` is a decimal digit.
pub open spec fn is_digit(c: char) -> bool {
    '0' <= c && c <= '9'
}

/// What `char::is_alphanumeric` gives for `c`: whether `c` is a letter or a
/// number of some script.
pub uninterp spec fn is_alphanumeric(c: char) -> bool;

/// `char::is_alphanumeric` of std.  The contract gives its result a name and
/// says nothing else of it.
#[verifier::external_body]
fn alphanumeric(c: char) -> (b: bool)
    ensures
        b == is_alphanumeric(c),
{
    c.is_alphanumeric()
}

/// Whether `c` carries a word on: an ASCII letter, a decimal digit, `_`, or
/// a letter or number beyond ASCII.
pub open spec fn is_word(c: char) -> bool {
    is_letter(c) || is_digit(c) || (c > '\u{7f}' && is_alphanumeric(c))
}

/// Whether a word may start with `c`: an ASCII letter or `_`.
pub open spec fn is_letter(c: char) -> bool {
    ('a' <= c && c <= 'z') || ('A' <= c && c <= 'Z') || c == '_'
}

/// Whether `c` is one of the blanks that separate tokens.
pub open spec fn is_blank(c: char) -> bool {
    c == ' ' || c == '\t' || c == '\r' || c == '\n'
}

/// Whether `c` is of the class.
pub open spec fn in_class(class: CharClass, c: char) -> bool {
    match class {
        CharClass::Digit => is_digit(c),
        CharClass::Word => is_word(c),
        CharClass::StringBody => c != '"',
        CharClass::CommentBody => c != '\n',
    }
}

/// The length of the longest run of characters of `class` that starts at
/// `from`.
pub open spec fn run_len(src: Seq<char>, from: int, class: CharClass) -> nat
    decreases src.len() - from,
{
    if 0 <= from < src.len() && in_class(class, src[from]) {
        1 + run_len(src, from + 1, class)
    } else {
        0
    }
}

/// The character at `at`, if there is one.
pub open spec fn char_at(src: Seq<char>, at: int) -> Option<char> {
    if 0 <= at < src.len() {
        Some(src[at])
    } else {
        None
    }
}

/// Where the numeral that starts at `pos` ends: behind its digits, and behind
/// a fraction if a `.` and at least one more digit follow them.
pub open spec fn number_end(src: Seq<char>, pos: int) -> int {
    let whole = pos + 1 + run_len(src, pos + 1, CharClass::Digit);
    if char_at(src, whole) == Some('.') && char_at(src, whole + 1).is_some() && is_digit(
        src[whole + 1],
    ) {
        whole + 1 + run_len(src, whole + 1, CharClass::Digit)
    } else {
        whole
    }
}

/// Where the closing quote of the string that opens at `pos` stands; the
/// length of the source if there is none.
pub open spec fn closing_quote(src: Seq<char>, pos: int) -> int {
    pos + 1 + run_len(src, pos + 1, CharClass::StringBody)
}

/// Where the line comment that starts at `pos` ends: behind the next line
/// feed, or at the end of the source.
pub open spec fn comment_end(src: Seq<char>, pos: int) -> int {
    let feed = pos + 2 + run_len(src, pos + 2, CharClass::CommentBody);
    if feed < src.len() {
        feed + 1
    } else {
        feed
    }
}

/// Where the lexical item that starts at `pos` ends.  An item is a token, a
/// blank or a comment, and takes at least one character.
pub open spec fn item_end(src: Seq<char>, pos: int) -> int
    recommends
        0 <= pos < src.len(),
{
    let c = src[pos];
    if c == '=' || c == '!' || c == '<' || c == '>' {
        if char_at(src, pos + 1) == Some('=') {
            pos + 2
        } else {
            pos + 1
        }
    } else if c == '/' {
        if char_at(src, pos + 1) == Some('/') {
            comment_end(src, pos)
        } else {
            pos + 1
        }
    } else if c == '"' {
        let close = closing_quote(src, pos);
        if close < src.len() {
            close + 1
        } else {
            close
        }
    } else if is_digit(c) {
        number_end(src, pos)
    } else if is_letter(c) {
        pos + 1 + run_len(src, pos + 1, CharClass::Word)
    } else {
        pos + 1
    }
}

/// The category of a word: that of the keyword it spells, or `Identifier`.
pub open spec fn word_category(word: Seq<char>) -> Category {
    if word == "and"@ {
        Category::And
    } else if word == "class"@ {
        Category::Class
    } else if word == "else"@ {
        Category::Else
    } else if word == "false"@ {
        Category::False
    } else if word == "for"@ {
        Category::For
    } else if word == "fun"@ {
        Category::Fun
    } else if word == "if"@ {
        Category::If
    } else if word == "nil"@ {
        Category::Nil
    } else if word == "or"@ {
        Category::Or
    } else if word == "print"@ {
        Category::Print
    } else if word == "return"@ {
        Category::Return
    } else if word == "super"@ {
        Category::Super
    } else if word == "this"@ {
        Category::This
    } else if word == "true"@ {
        Category::True
    } else if word == "var"@ {
        Category::Var
    } else if word == "while"@ {
        Category::While
    } else {
        Category::Identifier
    }
}

/// The category of the token that starts at `pos`; `None` where a blank or a
/// comment starts.
pub open spec fn item_category(src: Seq<char>, pos: int) -> Option<Category>
    recommends
        0 <= pos < src.len(),
{
    let c = src[pos];
    let paired = char_at(src, pos + 1) == Some('=');
    if c == '(' {
        Some(Category::LeftParen)
    } else if c == ')' {
        Some(Category::RightParen)
    } else if c == '{' {
        Some(Category::LeftBrace)
    } else if c == '}' {
        Some(Category::RightBrace)
    } else if c == '*' {
        Some(Category::Star)
    } else if c == '.' {
        Some(Category::Dot)
    } else if c == ',' {
        Some(Category::Comma)
    } else if c == '+' {
        Some(Category::Plus)
    } else if c == '-' {
        Some(Category::Minus)
    } else if c == ';' {
        Some(Category::Semicolon)
    } else if c == ':' {
        Some(Category::Colon)
    } else if c == '=' {
        Some(
            if paired {
                Category::EqualEqual
            } else {
                Category::Equal
            },
        )
    } else if c == '!' {
        Some(
            if paired {
                Category::BangEqual
            } else {
                Category::Bang
            },
        )
    } else if c == '<' {
        Some(
            if paired {
                Category::LessEqual
            } else {
                Category::Less
            },
        )
    } else if c == '>' {
        Some(
            if paired {
                Category::GreaterEqual
            } else {
                Category::Greater
            },
        )
    } else if c == '/' {
        if char_at(src, pos + 1) == Some('/') {
            None
        } else {
            Some(Category::Slash)
        }
    } else if c == '"' {
        Some(
            if closing_quote(src, pos) < src.len() {
                Category::String
            } else {
                Category::Error
            },
        )
    } else if is_digit(c) {
        Some(Category::Number)
    } else if is_letter(c) {
        Some(word_category(src.subrange(pos, item_end(src, pos))))
    } else if is_blank(c) {
        None
    } else {
        Some(Category::Error)
    }
}

/// The message of the error token for a string that is still open where the
/// input ends.  `line` is the line on which the string opens.
pub open spec fn unterminated_message(line: u32) -> Seq<char> {
    "[line "@ + decimal(line as nat) + "] Error: Unterminated string."@
}

/// The message of the error token for a character that starts no token.
pub open spec fn unexpected_message(line: u32, c: char) -> Seq<char> {
    ("[line "@ + decimal(line as nat) + "] Error: Unexpected character: "@).push(c)
}

/// The payload of the token of category `category` that starts at `pos` on
/// line `line`.
pub open spec fn item_payload(src: Seq<char>, pos: int, line: u32, category: Category) -> Seq<
    char,
>
    recommends
        0 <= pos < src.len(),
{
    match category {
        Category::Number | Category::Identifier => src.subrange(pos, item_end(src, pos)),
        Category::String => src.subrange(pos + 1, closing_quote(src, pos)),
        Category::Error => if src[pos] == '"' {
            unterminated_message(line)
        } else {
            unexpected_message(line, src[pos])
        },
        _ => Seq::empty(),
    }
}

/// A place in the source: the index of the next character, the line it is on
/// (counted from 1) and the number of characters before it on that line.
pub struct Cursor {
    pub pos: int,
    pub line: u32,
    pub column: u32,
}

/// The next value of a line or column counter.  A counter that has reached
/// the largest value stays there.
pub open spec fn bump(n: u32) -> u32 {
    if n < u32::MAX {
        (n + 1) as u32
    } else {
        n
    }
}

impl Cursor {
    /// The cursor at the start of a source.
    pub open spec fn start() -> Cursor {
        Cursor { pos: 0, line: 1, column: 0 }
    }

    /// The cursor behind the character `c`: a line feed starts a new line,
    /// every other character takes one column.
    pub open spec fn over(self, c: char) -> Cursor {
        if c == '\n' {
            Cursor { pos: self.pos + 1, line: bump(self.line), column: 0 }
        } else {
            Cursor { pos: self.pos + 1, line: self.line, column: bump(self.column) }
        }
    }

    /// The cursor moved forward to the index `to`, over every character in
    /// between.
    pub open spec fn advance(self, src: Seq<char>, to: int) -> Cursor
        decreases to - self.pos,
    {
        if 0 <= self.pos < to && self.pos < src.len() {
            self.over(src[self.pos]).advance(src, to)
        } else {
            self
        }
    }
}

/// The token of category `category` that starts at the cursor.
pub open spec fn token_at(src: Seq<char>, cursor: Cursor, category: Category) -> TokenView {
    TokenView::make(
        category,
        src.subrange(cursor.pos, item_end(src, cursor.pos)),
        cursor.line,
        cursor.column,
        item_payload(src, cursor.pos, cursor.line, category),
    )
}

/// The first token at or behind the cursor, and the cursor behind that token.
/// Blanks and comments before the token are passed over; where the source
/// ends, the token is the end of input and the cursor stays.
pub open spec fn next_token(src: Seq<char>, cursor: Cursor) -> (TokenView, Cursor)
    decreases src.len() - cursor.pos,
{
    if 0 <= cursor.pos < src.len() {
        let end = item_end(src, cursor.pos);
        let behind = Cursor { pos: end, ..cursor.advance(src, end) };
        match item_category(src, cursor.pos) {
            Some(category) => (token_at(src, cursor, category), behind),
            None => if cursor.pos < end <= src.len() {
                next_token(src, behind)
            } else {
                (TokenView::end(), cursor)
            },
        }
    } else {
        (TokenView::end(), cursor)
    }
}

/// All tokens from the cursor on, the end of input last.
pub open spec fn tokens_from(src: Seq<char>, cursor: Cursor) -> Seq<TokenView>
    decreases src.len() - cursor.pos,
{
    let (token, behind) = next_token(src, cursor);
    if token.category != Category::EndOfFile && cursor.pos < behind.pos <= src.len() {
        seq![token] + tokens_from(src, behind)
    } else {
        seq![token]
    }
}

/// The tokens of a source text.
pub open spec fn scan(src: Seq<char>) -> Seq<TokenView> {
    tokens_from(src, Cursor::start())
}

/// Holds a source text and hands out scanners over it.
pub struct Tokenizer {
    file_content: Vec<char>,
}

/// A scanner over a source text.  It yields the tokens one by one, the end of
/// input last, and nothing after that.
pub struct TokenIter<'a> {
    source: &'a Vec<char>,
    pos: usize,
    line: u32,
    col: u32,
    finished: bool,
}

impl View for Tokenizer {
    type V = Seq<char>;

    /// The source text.
    closed spec fn view(&self) -> Seq<char> {
        self.file_content@
    }
}

impl Tokenizer {
    /// A tokenizer for the given source text.
    pub fn new(file_content: String) -> (tokenizer: Tokenizer)
        ensures
            tokenizer@ == file_content@,
    {
        return Tokenizer { file_content: chars_of(file_content.as_str()) };
    }

    /// A scanner at the start of the source.
    pub fn iter(&self) -> (iter: TokenIter<'_>)
        ensures
            iter.source() == self@,
            iter.cursor() == Cursor::start(),
            !iter.finished(),
    {
        TokenIter { source: &self.file_content, pos: 0, line: 1, col: 0, finished: false }
    }

    /// Scans the whole source.
    pub fn tokens(&self) -> (tokens: Vec<Token>)
        ensures
            tokens_view(tokens@) == scan(self@),
    {
        let mut iter = self.iter();
        iter.collect()
    }
}

/// The views of a sequence of tokens.
pub open spec fn tokens_view(tokens: Seq<Token>) -> Seq<TokenView> {
    Seq::new(tokens.len(), |i: int| tokens[i]@)
}

fn digit(c: char) -> (b: bool)
    ensures
        b == is_digit(c),
{
    '0' <= c && c <= '9'
}

fn letter(c: char) -> (b: bool)
    ensures
        b == is_letter(c),
{
    ('a' <= c && c <= 'z') || ('A' <= c && c <= 'Z') || c == '_'
}

fn blank(c: char) -> (b: bool)
    ensures
        b == is_blank(c),
{
    c == ' ' || c == '\t' || c == '\r' || c == '\n'
}

fn member(class: CharClass, c: char) -> (b: bool)
    ensures
        b == in_class(class, c),
{
    match class {
        CharClass::Digit => digit(c),
        CharClass::Word => letter(c) || digit(c) || (c > '\u{7f}' && alphanumeric(c)),
        CharClass::StringBody => c != '"',
        CharClass::CommentBody => c != '\n',
    }
}

fn increment(n: u32) -> (m: u32)
    ensures
        m == bump(n),
{
    if n < u32::MAX {
        n + 1
    } else {
        n
    }
}

/// A run of `class` never leaves the source.
pub proof fn lemma_run_within(src: Seq<char>, from: int, class: CharClass)
    requires
        0 <= from <= src.len(),
    ensures
        from + run_len(src, from, class) <= src.len(),
    decreases src.len() - from,
{
    if from < src.len() && in_class(class, src[from]) {
        lemma_run_within(src, from + 1, class);
    }
}

/// A run that starts inside another run of the same class ends where that one
/// ends.
proof fn lemma_run_split(src: Seq<char>, from: int, mid: int, class: CharClass)
    requires
        0 <= from <= mid <= src.len(),
        forall|i: int| from <= i < mid ==> in_class(class, src[i]),
    ensures
        from + run_len(src, from, class) == mid + run_len(src, mid, class),
    decreases mid - from,
{
    if from < mid {
        lemma_run_split(src, from + 1, mid, class);
    }
}

/// An item lies within the source and takes at least one character.
pub proof fn lemma_item_bounds(src: Seq<char>, pos: int)
    requires
        0 <= pos < src.len(),
    ensures
        pos < item_end(src, pos) <= src.len(),
{
    lemma_run_within(src, pos + 1, CharClass::Digit);
    lemma_run_within(src, pos + 1, CharClass::Word);
    lemma_run_within(src, pos + 1, CharClass::StringBody);
    let whole = pos + 1 + run_len(src, pos + 1, CharClass::Digit);
    if whole + 1 <= src.len() {
        lemma_run_within(src, whole + 1, CharClass::Digit);
    }
    if pos + 2 <= src.len() {
        lemma_run_within(src, pos + 2, CharClass::CommentBody);
    }
}

/// Moving a cursor forward within the source brings it to the index asked
/// for.
pub proof fn lemma_advance_pos(src: Seq<char>, cursor: Cursor, to: int)
    requires
        0 <= cursor.pos <= to <= src.len(),
    ensures
        cursor.advance(src, to).pos == to,
    decreases to - cursor.pos,
{
    if cursor.pos < to {
        lemma_advance_pos(src, cursor.over(src[cursor.pos]), to);
    }
}

/// Moving a cursor in two legs is moving it in one.
pub proof fn lemma_advance_split(src: Seq<char>, cursor: Cursor, mid: int, to: int)
    requires
        0 <= cursor.pos <= mid <= to <= src.len(),
    ensures
        cursor.advance(src, mid).advance(src, to) == cursor.advance(src, to),
    decreases mid - cursor.pos,
{
    if cursor.pos < mid {
        lemma_advance_split(src, cursor.over(src[cursor.pos]), mid, to);
    }
}

impl<'a> TokenIter<'a> {
    #[verifier::type_invariant]
    spec fn within(self) -> bool {
        self.pos <= self.source@.len()
    }

    /// The source text that is scanned.
    pub closed spec fn source(self) -> Seq<char> {
        self.source@
    }

    /// Where the scanner stands.
    pub closed spec fn cursor(self) -> Cursor {
        Cursor { pos: self.pos as int, line: self.line, column: self.col }
    }

    /// Whether the end of input has been yielded.
    pub closed spec fn finished(self) -> bool {
        self.finished
    }

    /// The tokens that are still to come.
    pub open spec fn remaining(self) -> Seq<TokenView> {
        if self.finished() {
            Seq::empty()
        } else {
            tokens_from(self.source(), self.cursor())
        }
    }

    /// The end of the longest run of `class` that starts at `from`.
    fn run_end(&self, from: usize, class: CharClass) -> (end: usize)
        requires
            from <= self.source().len(),
        ensures
            end == from + run_len(self.source(), from as int, class),
            from <= end <= self.source().len(),
    {
        let mut end: usize = from;
        while end < self.source.len() && member(class, self.source[end])
            invariant
                from <= end <= self.source@.len(),
                forall|i: int| from <= i < end ==> in_class(class, self.source@[i]),
            decreases self.source@.len() - end,
        {
            end += 1;
        }
        proof {
            lemma_run_split(self.source@, from as int, end as int, class);
        }
        end
    }

    /// Whether the character at `at` is `c`.
    fn holds(&self, at: usize, c: char) -> (b: bool)
        ensures
            b == (char_at(self.source(), at as int) == Some(c)),
    {
        at < self.source.len() && self.source[at] == c
    }

    /// The end of the item that starts where the scanner stands.
    fn item_end(&self) -> (end: usize)
        requires
            self.cursor().pos < self.source().len(),
        ensures
            end == item_end(self.source(), self.cursor().pos),
            self.cursor().pos < end <= self.source().len(),
    {
        proof {
            use_type_invariant(&*self);
            lemma_item_bounds(self.source@, self.pos as int);
            // the length of the source fits the index type
            assert(self.source.len() == self.source@.len());
        }
        let pos: usize = self.pos;
        let c = self.source[pos];
        if c == '=' || c == '!' || c == '<' || c == '>' {
            if self.holds(pos + 1, '=') {
                pos + 2
            } else {
                pos + 1
            }
        } else if c == '/' {
            if self.holds(pos + 1, '/') {
                let feed: usize = self.run_end(pos + 2, CharClass::CommentBody);
                if feed < self.source.len() {
                    feed + 1
                } else {
                    feed
                }
            } else {
                pos + 1
            }
        } else if c == '"' {
            let close: usize = self.run_end(pos + 1, CharClass::StringBody);
            if close < self.source.len() {
                close + 1
            } else {
                close
            }
        } else if digit(c) {
            let whole: usize = self.run_end(pos + 1, CharClass::Digit);
            if self.holds(whole, '.') && whole + 1 < self.source.len() && digit(
                self.source[whole + 1],
            ) {
                self.run_end(whole + 1, CharClass::Digit)
            } else {
                whole
            }
        } else if letter(c) {
            self.run_end(pos + 1, CharClass::Word)
        } else {
            pos + 1
        }
    }

    /// The category of the word that reaches from where the scanner stands up
    /// to `end`.
    fn word_category(&self, end: usize) -> (category: Category)
        requires
            self.cursor().pos <= end <= self.source().len(),
        ensures
            category == word_category(self.source().subrange(self.cursor().pos, end as int)),
    {
        let src = self.source;
        let pos: usize = self.pos;
        if spells(src, pos, end, "and") {
            Category::And
        } else if spells(src, pos, end, "class") {
            Category::Class
        } else if spells(src, pos, end, "else") {
            Category::Else
        } else if spells(src, pos, end, "false") {
            Category::False
        } else if spells(src, pos, end, "for") {
            Category::For
        } else if spells(src, pos, end, "fun") {
            Category::Fun
        } else if spells(src, pos, end, "if") {
            Category::If
        } else if spells(src, pos, end, "nil") {
            Category::Nil
        } else if spells(src, pos, end, "or") {
            Category::Or
        } else if spells(src, pos, end, "print") {
            Category::Print
        } else if spells(src, pos, end, "return") {
            Category::Return
        } else if spells(src, pos, end, "super") {
            Category::Super
        } else if spells(src, pos, end, "this") {
            Category::This
        } else if spells(src, pos, end, "true") {
            Category::True
        } else if spells(src, pos, end, "var") {
            Category::Var
        } else if spells(src, pos, end, "while") {
            Category::While
        } else {
            Category::Identifier
        }
    }

    /// The category of the token that starts where the scanner stands, and
    /// none for a blank or a comment.  `end` is the end of the item.
    fn item_category(&self, end: usize) -> (category: Option<Category>)
        requires
            self.cursor().pos < self.source().len(),
            end == item_end(self.source(), self.cursor().pos),
        ensures
            category == item_category(self.source(), self.cursor().pos),
    {
        proof {
            use_type_invariant(&*self);
            lemma_item_bounds(self.source@, self.pos as int);
            // the length of the source fits the index type
            assert(self.source.len() == self.source@.len());
        }
        let pos: usize = self.pos;
        let c = self.source[pos];
        let paired = self.holds(pos + 1, '=');
        if c == '(' {
            Some(Category::LeftParen)
        } else if c == ')' {
            Some(Category::RightParen)
        } else if c == '{' {
            Some(Category::LeftBrace)
        } else if c == '}' {
            Some(Category::RightBrace)
        } else if c == '*' {
            Some(Category::Star)
        } else if c == '.' {
            Some(Category::Dot)
        } else if c == ',' {
            Some(Category::Comma)
        } else if c == '+' {
            Some(Category::Plus)
        } else if c == '-' {
            Some(Category::Minus)
        } else if c == ';' {
            Some(Category::Semicolon)
        } else if c == ':' {
            Some(Category::Colon)
        } else if c == '=' {
            Some(
                if paired {
                    Category::EqualEqual
                } else {
                    Category::Equal
                },
            )
        } else if c == '!' {
            Some(
                if paired {
                    Category::BangEqual
                } else {
                    Category::Bang
                },
            )
        } else if c == '<' {
            Some(
                if paired {
                    Category::LessEqual
                } else {
                    Category::Less
                },
            )
        } else if c == '>' {
            Some(
                if paired {
                    Category::GreaterEqual
                } else {
                    Category::Greater
                },
            )
        } else if c == '/' {
            if self.holds(pos + 1, '/') {
                None
            } else {
                Some(Category::Slash)
            }
        } else if c == '"' {
            // A closed string ends behind its closing quote, an open one at
            // the end of the source.
            proof {
                lemma_run_within(self.source@, pos + 1, CharClass::StringBody);
                lemma_closing_quote(self.source@, pos as int);
            }
            if self.source[end - 1] == '"' && end - 1 > pos {
                Some(Category::String)
            } else {
                Some(Category::Error)
            }
        } else if digit(c) {
            Some(Category::Number)
        } else if letter(c) {
            Some(self.word_category(end))
        } else if blank(c) {
            None
        } else {
            Some(Category::Error)
        }
    }

    /// The payload of the token of category `category` that starts where the
    /// scanner stands and ends at `end`.
    fn item_payload(&self, end: usize, category: Category) -> (payload: String)
        requires
            self.cursor().pos < self.source().len(),
            end == item_end(self.source(), self.cursor().pos),
            item_category(self.source(), self.cursor().pos) == Some(category),
        ensures
            payload@ == item_payload(
                self.source(),
                self.cursor().pos,
                self.cursor().line,
                category,
            ),
    {
        proof {
            use_type_invariant(&*self);
            lemma_item_bounds(self.source@, self.pos as int);
        }
        match category {
            Category::Number | Category::Identifier => slice_text(self.source, self.pos, end),
            Category::String => {
                proof {
                    lemma_run_within(self.source@, self.pos + 1, CharClass::StringBody);
                }
                slice_text(self.source, self.pos + 1, end - 1)
            },
            Category::Error => {
                let mut message = String::from_str("[line ");
                push_decimal(&mut message, self.line);
                if self.source[self.pos] == '"' {
                    message.append("] Error: Unterminated string.");
                } else {
                    message.append("] Error: Unexpected character: ");
                    message.push(self.source[self.pos]);
                }
                message
            },
            _ => String::new(),
        }
    }

    /// Moves the scanner forward to the index `to`.
    fn advance(&mut self, to: usize)
        requires
            old(self).cursor().pos <= to <= old(self).source().len(),
        ensures
            final(self).source() == old(self).source(),
            final(self).finished() == old(self).finished(),
            final(self).cursor() == (Cursor {
                pos: to as int,
                ..old(self).cursor().advance(old(self).source(), to as int)
            }),
    {
        proof {
            use_type_invariant(&*self);
        }
        let ghost start = self.cursor();
        let ghost src = self.source@;
        let mut pos: usize = self.pos;
        let mut line: u32 = self.line;
        let mut col: u32 = self.col;
        while pos < to
            invariant
                start.pos <= pos <= to <= src.len(),
                src == self.source@,
                start.advance(src, pos as int) == (Cursor { pos: pos as int, line, column: col }),
            decreases to - pos,
        {
            proof {
                let here = Cursor { pos: pos as int, line, column: col };
                lemma_advance_split(src, start, pos as int, pos + 1);
                assert(here.over(src[pos as int]).advance(src, pos + 1) == here.over(
                    src[pos as int],
                ));
            }
            if self.source[pos] == '\n' {
                line = increment(line);
                col = 0;
            } else {
                col = increment(col);
            }
            pos += 1;
        }
        self.pos = to;
        self.line = line;
        self.col = col;
    }

    /// Yields the next token: the first one at or behind the place where the
    /// scanner stands, or the end of input where the source has none left.
    /// After the end of input nothing more is yielded.
    pub fn next(&mut self) -> (token: Option<Token>)
        ensures
            final(self).source() == old(self).source(),
            old(self).finished() ==> token.is_none() && final(self).cursor() == old(self).cursor()
                && final(self).finished(),
            !old(self).finished() ==> token.is_some() && (token.unwrap()@, final(self).cursor())
                == next_token(old(self).source(), old(self).cursor()) && final(self).finished() == (
            token.unwrap()@.category == Category::EndOfFile),
            final(self).cursor().pos >= old(self).cursor().pos,
            token.is_some() && token.unwrap()@.category != Category::EndOfFile
                ==> final(self).cursor().pos > old(self).cursor().pos,
    {
        proof {
            use_type_invariant(&*self);
        }
        if self.finished {
            return None;
        }
        let ghost src = self.source@;
        let ghost start = self.cursor();
        loop
            invariant
                src == old(self).source(),
                start == old(self).cursor(),
                !old(self).finished(),
                self.source@ == src,
                self.pos <= src.len(),
                !self.finished,
                next_token(src, self.cursor()) == next_token(src, start),
                self.cursor().pos >= start.pos,
            decreases src.len() - self.pos,
        {
            if self.pos >= self.source.len() {
                self.finished = true;
                return Some(Token::EndOfFile);
            }
            let end: usize = self.item_end();
            let found = self.item_category(end);
            match found {
                Some(category) => {
                    let lexeme = slice_text(self.source, self.pos, end);
                    let payload = self.item_payload(end, category);
                    let token = Token::new(category, lexeme, self.line, self.col, payload);
                    self.advance(end);
                    return Some(token);
                },
                None => {
                    self.advance(end);
                },
            }
        }
    }

    /// Yields all tokens that are still to come.
    pub fn collect(&mut self) -> (tokens: Vec<Token>)
        ensures
            tokens_view(tokens@) == old(self).remaining(),
            final(self).source() == old(self).source(),
            final(self).finished(),
    {
        let mut tokens: Vec<Token> = Vec::new();
        let ghost src = self.source();
        proof {
            use_type_invariant(&*self);
        }
        loop
            invariant
                src == old(self).source(),
                self.source() == src,
                self.cursor().pos <= src.len(),
                old(self).remaining() == tokens_view(tokens@) + self.remaining(),
            ensures
                self.finished(),
                old(self).remaining() == tokens_view(tokens@),
            decreases src.len() - self.cursor().pos, if self.finished() { 0int } else { 1int },
        {
            let ghost before = *self;
            let ghost so_far = tokens_view(tokens@);
            match self.next() {
                Some(token) => {
                    proof {
                        use_type_invariant(&*self);
                    }
                    tokens.push(token);
                    assert(tokens_view(tokens@) =~= so_far.push(token@));
                    assert(before.remaining() =~= seq![token@] + self.remaining());
                },
                None => {
                    assert(self.remaining() =~= Seq::<TokenView>::empty());
                    assert(tokens_view(tokens@) + self.remaining() =~= tokens_view(tokens@));
                    break ;
                },
            }
        }
        tokens
    }
}

/// The run of string characters behind an opening quote ends at the closing
/// quote or at the end of the source.
proof fn lemma_closing_quote(src: Seq<char>, pos: int)
    requires
        0 <= pos < src.len(),
    ensures
        ({
            let close = closing_quote(src, pos);
            pos < close <= src.len() && (close < src.len() ==> src[close] == '"') && (forall|
                i: int,
            |
                pos < i < close ==> src[i] != '"')
        }),
{
    lemma_run_stops(src, pos + 1, CharClass::StringBody);
}

/// A run holds only characters of its class and stops at the first character
/// that is not of it.
pub proof fn lemma_run_stops(src: Seq<char>, from: int, class: CharClass)
    requires
        0 <= from <= src.len(),
    ensures
        ({
            let end = from + run_len(src, from, class);
            from <= end <= src.len() && (end < src.len() ==> !in_class(class, src[end])) && (forall|
                i: int,
            |
                from <= i < end ==> in_class(class, src[i]))
        }),
    decreases src.len() - from,
{
    if from < src.len() && in_class(class, src[from]) {
        lemma_run_stops(src, from + 1, class);
    }
}


/// The scanner moves forward and stays within the source: behind a token
/// that is not the end of input it stands further on than before, and where
/// it finds the end of input it stands at the end of the source.
pub proof fn lemma_next_token_advances(src: Seq<char>, cursor: Cursor)
    requires
        0 <= cursor.pos <= src.len(),
    ensures
        ({
            let (token, behind) = next_token(src, cursor);
            &&& cursor.pos <= behind.pos <= src.len()
            &&& token.category != Category::EndOfFile ==> cursor.pos < behind.pos
            &&& token.category == Category::EndOfFile ==> behind.pos == src.len() && token
                == TokenView::end()
        }),
    decreases src.len() - cursor.pos,
{
    if cursor.pos < src.len() {
        lemma_item_bounds(src, cursor.pos);
        let end = item_end(src, cursor.pos);
        let behind = Cursor { pos: end, ..cursor.advance(src, end) };
        if item_category(src, cursor.pos).is_none() {
            lemma_next_token_advances(src, behind);
        }
    }
}

/// The tokens of a source end with the end of input, and the end of input
/// comes nowhere else among them.
pub proof fn lemma_tokens_end(src: Seq<char>, cursor: Cursor)
    requires
        0 <= cursor.pos <= src.len(),
    ensures
        ({
            let tokens = tokens_from(src, cursor);
            &&& tokens.len() > 0
            &&& tokens.last() == TokenView::end()
            &&& forall|i: int|
                0 <= i < tokens.len() - 1 ==> (#[trigger] tokens[i]).category
                    != Category::EndOfFile
        }),
    decreases src.len() - cursor.pos,
{
    lemma_next_token_advances(src, cursor);
    let (token, behind) = next_token(src, cursor);
    if token.category != Category::EndOfFile {
        lemma_tokens_end(src, behind);
        let rest = tokens_from(src, behind);
        let tokens = tokens_from(src, cursor);
        assert(tokens =~= seq![token] + rest);
        assert forall|i: int| 0 <= i < tokens.len() - 1 implies (#[trigger] tokens[i]).category
            != Category::EndOfFile by {
            if i > 0 {
                assert(tokens[i] == rest[i - 1]);
            }
        }
    }
}

/// A string that is still open where the source ends gives an error token
/// whose message names the line on which the string opens.  It takes the
/// rest of the source, so that only the end of input follows it.
pub proof fn lemma_unterminated_string(src: Seq<char>, cursor: Cursor)
    requires
        0 <= cursor.pos < src.len(),
        src[cursor.pos] == '"',
        forall|i: int| cursor.pos < i < src.len() ==> src[i] != '"',
    ensures
        next_token(src, cursor).0 == TokenView::make(
            Category::Error,
            Seq::empty(),
            0,
            0,
            unterminated_message(cursor.line),
        ),
        next_token(src, cursor).1.pos == src.len(),
        tokens_from(src, cursor) == seq![next_token(src, cursor).0, TokenView::end()],
{
    lemma_run_stops(src, cursor.pos + 1, CharClass::StringBody);
    let behind = next_token(src, cursor).1;
    lemma_next_token_advances(src, behind);
    assert(tokens_from(src, behind) =~= seq![TokenView::end()]);
    assert(tokens_from(src, cursor) =~= seq![next_token(src, cursor).0, TokenView::end()]);
}

/// A character that starts no token gives an error token whose message names
/// its line and the character, and scanning goes on with the character
/// behind it.
pub proof fn lemma_unexpected_character(src: Seq<char>, cursor: Cursor)
    requires
        0 <= cursor.pos < src.len(),
        item_category(src, cursor.pos) == Some(Category::Error),
        src[cursor.pos] != '"',
    ensures
        next_token(src, cursor).0 == TokenView::make(
            Category::Error,
            Seq::empty(),
            0,
            0,
            unexpected_message(cursor.line, src[cursor.pos]),
        ),
        next_token(src, cursor).1 == cursor.over(src[cursor.pos]),
        tokens_from(src, cursor) == seq![next_token(src, cursor).0] + tokens_from(
            src,
            cursor.over(src[cursor.pos]),
        ),
{
    let c = src[cursor.pos];
    assert(cursor.over(c).advance(src, cursor.pos + 1) == cursor.over(c));
}

/// A token that carries a position is a slice of the source: its lexeme is
/// made of the characters from the place where it starts up to the place
/// where the scanner stands behind it, and its line and column are those of
/// the place where it starts.  The scanner has passed over everything
/// before that place.
pub proof fn lemma_token_is_slice(src: Seq<char>, cursor: Cursor)
    requires
        0 <= cursor.pos <= src.len(),
    ensures
        ({
            let (token, behind) = next_token(src, cursor);
            let start = behind.pos - token.lexeme.len();
            token.category.has_position() ==> {
                &&& cursor.pos <= start < behind.pos <= src.len()
                &&& token.lexeme == src.subrange(start, behind.pos)
                &&& token.line == cursor.advance(src, start).line
                &&& token.column == cursor.advance(src, start).column
            }
        }),
    decreases src.len() - cursor.pos,
{
    if cursor.pos < src.len() {
        lemma_item_bounds(src, cursor.pos);
        let end = item_end(src, cursor.pos);
        let behind = Cursor { pos: end, ..cursor.advance(src, end) };
        lemma_advance_pos(src, cursor, end);
        if item_category(src, cursor.pos).is_none() {
            lemma_token_is_slice(src, behind);
            lemma_next_token_advances(src, behind);
            let (token, last) = next_token(src, behind);
            let start = last.pos - token.lexeme.len();
            if token.category.has_position() {
                lemma_advance_split(src, cursor, end, start);
            }
        }
    }
}

} // verus!
