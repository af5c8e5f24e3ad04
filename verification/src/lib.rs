//! A recursive-descent parser for a small subset of C, verified with Verus.
//!
//! `parse` turns a sequence of tokens into a program (a list of functions)
//! or a parse error; the grammar it follows is stated in `grammar`, and laws
//! of that grammar are proved in `laws`, `locality`, `roundtrip` and
//! `roundtrip_program`.

pub mod token;
pub mod lookahead;
pub mod ast;
pub mod error;
pub mod grammar;
pub mod parser;
pub mod laws;
pub mod locality;
pub mod roundtrip;
pub mod roundtrip_program;

pub use error::{ParseError, mkperr};
pub use parser::{Parser, parse, try_parse};
