//! A tokenizer and parser for a small text notation for music, together
//! with the pitch arithmetic of its note names.

pub mod text;
pub mod token;
pub mod pattern;
pub mod decimal;
pub mod lexer;
pub mod parser;
pub mod pitch;
