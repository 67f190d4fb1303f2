//! A linter core for Fortran sources: a syntax tree arena, a source file line
//! index, the rule abstraction with a few representative rules, rule selection
//! and the diagnostic engine.

pub mod source_file;
pub mod syntax;
pub mod parse;
pub mod violation;
pub mod settings;
pub mod rules;
pub mod implicit_typing;
pub mod external_functions;
pub mod selector;
pub mod engine;
pub mod cli;
pub mod fix;
