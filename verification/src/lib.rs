//! A formatter for Django templates.
//!
//! A document is lexed into tokens, the tokens are rewritten by a fixed
//! sequence of passes, and the result is rendered back to text:
//!
//! - [`lexer`] cuts the document into tokens, with [`bits`] for the interior
//!   of block tags and [`filter`] for the interior of variable tags;
//! - [`migrate`] rewrites deprecated tags and filters, from the target
//!   version on that has their modern form;
//! - [`edges`], [`loads`] and [`blocks`] tidy whitespace, `load` tags and
//!   `block` tags;
//! - [`render`] turns the tokens into text again, and [`formatter`] puts the
//!   steps together.
//!
//! Every function is specified over a model of its data, in which a string
//! is a `Seq<char>` and a token a [`token::TokenView`], and proved to meet
//! that specification. Where the tags of a document are, and the other
//! questions that are put to a regular expression, is not modelled: the
//! answers of the `regex` crate are given a name in [`pattern`], and the
//! specifications speak of that name. [`laws`] and [`verbatim`] hold what is
//! proved of the formatter as a whole.
//!
//! [`cli`] reads the target version and [`report`] keeps count over a run,
//! for the command line that is built on this library.

pub mod bits;
pub mod blocks;
pub mod cli;
pub mod edges;
pub mod filter;
pub mod formatter;
pub mod laws;
pub mod lexer;
pub mod loads;
pub mod migrate;
pub mod names;
pub mod pattern;
pub mod render;
pub mod report;
pub mod text;
pub mod token;
pub mod verbatim;
