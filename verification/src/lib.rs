//! A scanner, a parser and a tree-walking evaluator for a small
//! expression-oriented scripting language.
//!
//! Source text goes through three stages:
//!
//! - [`tokenizer`] turns it into [`token`]s.  It never fails: what is no token
//!   becomes an error token, and scanning goes on.
//! - [`parser`] builds a syntax tree from the tokens, by the [`grammar`].
//! - [`machine`] evaluates the tree over the [`variables`], by the rules of
//!   the [`interpreter`], and comes to what the [`semantics`] say.
//!
//! Numbers are IEEE-754 doubles.  The library holds a numeral as it was
//! written and a number by its bit pattern; it compares and negates numbers
//! itself (see [`number`]), and it asks its caller to decode numerals, to do
//! arithmetic and to format numbers (see [`machine::Action`] and
//! [`text::Fragment`]).

pub mod text;
pub mod token;
pub mod tokenizer;
pub mod layout;
pub mod grammar;
pub mod parser;
pub mod number;
pub mod interpreter;
pub mod variables;
pub mod semantics;
pub mod machine;
