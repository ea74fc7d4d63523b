//! A verified interpreter for a small, dynamically typed, expression-oriented
//! scripting language: prefix calls, bracketed list literals, nested function
//! definitions, a comma apply form, and exceptions that serve both as early
//! return and as fault propagation.
//!
//! The pipeline is: source text -> tokens (`tokenizer`) -> syntax tree
//! (`parser`) -> evaluation against a stack of call frames (`evaluator`,
//! `primitives`).  Every stage is specified by a mathematical model in
//! `semantics` and the executable code is proved to follow it exactly.

pub mod encoding;
pub mod floats;
pub mod numbers;
pub mod render;
pub mod semantics;
pub mod primitives;
pub mod evaluator;
pub mod parser;
pub mod tokenizer;
