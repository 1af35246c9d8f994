//! The L-system engine: a configuration read from text, the rewriting of its
//! string, and the turtle that turns the string into strokes.

pub mod config;
pub mod engine;
pub mod parser;
