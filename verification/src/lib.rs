//! A calculator for a small language of parenthesised prefix expressions:
//! arithmetic over numerals and variables, definitions of variables and of
//! functions, and `$` for the last result.
//!
//! [`scanner::scan_tokens`] turns a line of text into tokens, and
//! [`parser::Parser::evaluate`] carries a line of tokens out. What that
//! means is defined in [`semantics`]; [`laws`], [`frame`], [`depth`] and
//! [`round_trip`] hold what is proved from the definitions.

pub mod depth;
pub mod frame;
pub mod laws;
pub mod numeral;
pub mod parser;
pub mod round_trip;
pub mod scanner;
pub mod semantics;
pub mod table;
pub mod text;
pub mod value;
