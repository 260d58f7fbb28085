//! The two pipeline stages and their models.

pub mod decimal;
pub mod lex;
pub mod lex_laws;
pub mod lex_model;
pub mod parse_laws;
pub mod parse_model;
pub mod parser;
