//! A verified front end and evaluator for a small dynamically typed
//! scripting language.
//!
//! Source text is scanned into tokens, assembled into a syntax tree by
//! recursive descent, and executed by a tree walk against a chain of
//! lexical scopes. Numbers are exact decimals: every arithmetic step
//! either yields the precise rational result or reports that it has no
//! in-bounds representation. Each stage carries a contract that pins its
//! result down, and the evaluator is proved to follow one mathematical
//! semantics for expressions and statements.

pub mod decimal;
pub mod interpreter;
pub mod lexer;
pub mod parser;
pub mod strutil;
