//! Lexer for Desmos-style LaTeX math input.
//!
//! The lexer turns the bytes of a LaTeX expression (as typed into a graphing
//! calculator) into tokens: numbers, identifiers, punctuation, bracket pairs
//! and built-in function names.  Every token carries the byte span it was read
//! from.
pub mod lexing;
