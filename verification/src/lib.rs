//! A small arithmetic calculator: a tokenizer, a recursive-descent parser and
//! an evaluator over exact rational numbers, each verified against a
//! specification that mirrors it step by step.

pub mod calculator;
pub mod laws;
pub mod messages;
pub mod number;
pub mod parser;
pub mod support;
pub mod tokenizer;
