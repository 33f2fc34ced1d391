//! A small dynamically typed expression language: a scanner, a Pratt parser
//! and a tree-walking evaluator with lexical scopes.
//!
//! Each stage is stated as a model in spec functions and the executable code
//! is proved to compute exactly that model: `lexer::lex_step` and
//! `lexer::lex_all` for scanning, `parser::parse_source` for parsing, and
//! `evaluator::eval_expr` / `evaluator::eval_program` for evaluation;
//! `interpreter::interpret` runs all three.
//!
//! Numbers are 64-bit signed integers: a literal may carry a fraction of
//! zeros (`231.00`), arithmetic that leaves the range is an error, and
//! division rounds toward zero. Environments live in an arena
//! (`environment::Scopes`) and refer to their enclosing scope by index, so a
//! closure holds the index of the scope it was defined in. Calls nest at most
//! `evaluator::MAX_CALL_DEPTH` deep.
pub mod ast;
pub mod environment;
pub mod evaluator;
pub mod interpreter;
pub mod lexer;
pub mod object;
pub mod parser;
pub mod render;
pub mod scanner;
pub mod text;
pub mod token;
