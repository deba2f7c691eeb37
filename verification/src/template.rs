//! The template document model: tokens, lexer, parser, attribute elements
//! and the document builder.

pub mod builder;
pub mod lexer;
pub mod parser;
pub mod elements;
pub mod token;
