//! An interpreter core for a small, deliberately odd scripting language:
//! a whitespace-sensitive lexer and parser, a graded value algebra, a
//! two-axis binding model and a reactive tree-walking evaluator.
//!
//! Source text becomes tokens (`lexer`), tokens become a syntax tree
//! (`grouping`, `parser`), and the tree is evaluated in a machine
//! (`interpreter`) that holds the heap (`pointer`) and the environment
//! (`state`). Every function states what it computes over the views of its
//! arguments; `laws`, `roundtrip` and `literals` hold what is proved of
//! several functions together.

pub mod error;
pub mod grouping;
pub mod interpreter;
pub mod laws;
pub mod lexer;
pub mod literals;
pub mod number;
pub mod parser;
pub mod pointer;
pub mod roundtrip;
pub mod state;
pub mod syntax;
pub mod text;
pub mod token;
pub mod value;

pub use error::EvalError;
pub use grouping::ParseError;
pub use interpreter::{inner_interpret, interpret, Machine};
pub use lexer::{tokenize, LexError};
pub use number::Number;
pub use parser::parse;
pub use pointer::{rc_mut_new, Heap, MutValue, Pointer};
pub use state::{Lifetime, State};
pub use syntax::{Operation, Syntax, UnaryOperation, VarType};
pub use token::{StringSegment, Token};
pub use value::{Boolean, Keyword, Value};
