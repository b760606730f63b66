//! A left-to-right integer calculator: a scanner that groups a line into tokens and an
//! evaluator that folds them, with no operator precedence.
pub mod error;
pub mod evaluator;
pub mod laws;
pub mod number;
pub mod scanner;
pub mod token;

pub use error::{Error, ErrorKind};
pub use evaluator::Interpreter;
pub use number::parse_number;
pub use token::{detect_char_type, Token, Type};
