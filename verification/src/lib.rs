//! A small interpreter for a JavaScript-like scripting language.
//!
//! Source text is turned into tokens by [`token::gen_toks`], tokens into an
//! abstract syntax tree by [`ast::expr_gen`] and [`ast::stmt_gen`], and the
//! tree is executed against a chain of scope frames by [`parser::mod_exec`]
//! and [`parser::obj::obj_eval`].  Every stage carries a contract that pins
//! its result down to a recursive specification function over mathematical
//! views of the data.

pub mod ast;
pub mod laws;
pub mod num;
pub mod parser;
pub mod text;
pub mod token;
