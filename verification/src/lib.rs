//! Lexical tokens of the Internet Message Format: atoms, dot-atoms, comments and
//! folding white space, each recognised at the front of a string slice.

pub mod class;
pub mod failure;
pub mod leaf;
pub mod text;
pub mod token;
