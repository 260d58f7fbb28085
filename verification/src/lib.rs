//! Front end of an assembler for a small, line-oriented declaration language.
//!
//! Source bytes go through two stages. The tokenizer in [`parser::lex`] turns
//! them into positioned tokens; the recursive-descent parser in
//! [`parser::parser`] turns the tokens into a syntax tree. Both stages report
//! malformed input by appending to a diagnostic log from [`util::error_log`]
//! and never panic.
//!
//! Every executable function carries a contract that ties its result to a
//! mathematical model of the stage: [`parser::lex_model`] for the tokenizer and
//! [`parser::parse_model`] for the grammar.

pub mod parser;
pub mod util;
