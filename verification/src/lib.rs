//! A single-pass recursive-descent parser for a minimal Lisp-like
//! notation: parenthesized lists, bare alphabetic identifiers, and
//! double-quoted string literals with no escape processing.
//!
//! [`parser::Parser::parse`] turns a line of text into an [`ast::Expr`]
//! or a [`parser::ParseError`] whose message carries the 1-based line and
//! column of the failure. Its contract ties the result, character for
//! character, to the mathematical parser in [`grammar`]; [`render`] holds
//! the laws relating parsing to renderings of trees: a round trip for
//! every valid tree, insensitivity to whitespace between tokens, and the
//! converse — every parsed input is a rendering of its result.

pub mod ast;
pub mod grammar;
pub mod parser;
pub mod render;
