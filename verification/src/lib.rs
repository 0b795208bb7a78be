//! Tokenization of source code.
//!
//! Source code is read in one of two modes. In the body of a document, most of
//! the text is just text and a few symbols style it; in the header of a
//! function, the text consists of expressions, commas and the like.
//!
//! - [`tokens`] holds the tokenizer itself,
//! - [`syntax`] the tokens that it yields and their positions,
//! - [`grammar`] says which token stands where,
//! - [`until`] says how far a token that has no fixed length reaches,
//! - [`expr`] tells the words of a header apart,
//! - [`lines`] counts lines and columns,
//! - [`chars`] and [`text`] are about characters and their encoding,
//! - [`laws`] states what holds of all tokens,
//! - [`rest`] that they do not depend on what stands before them,
//! - [`written`] and [`words`] how each of them is written, character by character.

pub mod chars;
pub mod expr;
pub mod grammar;
pub mod laws;
pub mod lines;
pub mod rest;
pub mod syntax;
pub mod text;
pub mod tokens;
pub mod until;
pub mod words;
pub mod written;
