//! Core of an interactive dice shell: tokenizing input lines, a bounded
//! command history, dice and ability-check engines, and the dispatcher that
//! ties them together.
pub mod text;
pub mod tokenizer;
pub mod state;
mod random;
pub mod digits;
pub mod dice;
pub mod check;
pub mod parser;
pub mod man;
pub mod completer;
