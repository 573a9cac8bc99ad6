//! Front end of a small toy language: a codepoint cursor, a tokenizer built
//! on it, and a recursive-descent parser for arithmetic expressions and
//! variable declarations.
pub mod ast;
pub mod ast_node;
pub mod lexer;
pub mod lexer_cursor;
pub mod text;
pub mod token;
