//! Front end of a small scripting language: a scanner that turns text into
//! tokens, a recursive-descent parser that turns tokens into expression
//! trees, and a printer that writes a tree in prefix form.
//!
//! Each stage has a mathematical description ([`scan::scan`],
//! [`grammar::parse_all`], [`parser::printed`]) and code proved to compute
//! exactly that.

pub mod error;
pub mod front;
pub mod grammar;
pub mod lexer;
pub mod number;
pub mod parser;
pub mod scan;
pub mod token;
