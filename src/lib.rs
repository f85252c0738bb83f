//! A transpiler for a small line-oriented scripting language.
//!
//! Source text is split into lines ([`text`]), each line is recognised by
//! its first word, block constructs collect their bodies up to a closing
//! line and parse them on their own ([`parse`]), and the statement tree is
//! emitted as Rust source text ([`emit`]). [`compile`] joins the two and
//! decides the steps of a build of the emitted program.
//!
//! Known sharp edges, kept on purpose:
//! - the condition of `while` and `if` is every word after the keyword, so
//!   a trailing `{` stays in it and shows up in the emitted code;
//! - `call` passes no arguments, whatever parameters the function declares;
//! - `print` needs the words `to terminal` after it;
//! - `quit_loop` is a statement wherever it stands, and the one that closes a
//!   `loop do` body is consumed as its closing line.
pub mod ast;
pub mod text;
pub mod parse;
pub mod emit;
pub mod compile;
