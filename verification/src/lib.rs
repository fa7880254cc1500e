//! A formatting engine for Move source code. It takes the token forest of a
//! source file, its comments and its line mapping, and writes the source
//! again with canonical whitespace, indentation, line breaks and comment
//! placement.
//!
//! - `token_tree`: the forest and the comments.
//! - `line_mapping`: from byte offsets to source lines.
//! - `comment_fmt`: the kind of a comment and the text that stands for it.
//! - `expr_fmt`: where a space stands between two tokens.
//! - `fun_fmt`: the specifier clauses of a function header.
//! - `layout`: the model of a run, as functions from one state of the
//!   output to the next.
//! - `analysis`: what the engine learns of a nested node before it writes it.
//! - `fmt`: the engine; each of its steps is proved to do what `layout` says.
//! - `laws`: what holds of every run.
//! - `text`: character sequences.

pub mod analysis;
pub mod comment_fmt;
pub mod expr_fmt;
pub mod fmt;
pub mod fun_fmt;
pub mod laws;
pub mod layout;
pub mod line_mapping;
pub mod text;
pub mod token_tree;
