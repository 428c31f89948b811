//! A Make-a-Lisp interpreter: reader, printer, environments and evaluator.
pub mod text;
pub mod types;
pub mod environment;
pub mod reader;
pub mod builtins;
pub mod runtime;
pub mod evaluation;
pub mod printer;
pub mod laws;
