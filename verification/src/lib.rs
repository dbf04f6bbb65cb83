//! The filter subsystem of an HTTP-test scripting tool: a grammar for
//! post-processing extracted values, a typed value model with coercion rules,
//! and a bridge that lets users extend the filter set with scripts written in
//! an embedded scripting language.

pub mod add;
pub mod ast;
pub mod bridge;
pub mod chars;
pub mod eval;
pub mod filter_parser;
pub mod decimal;
pub mod floats;
pub mod number_parse;
pub mod parse_error;
pub mod primitives;
pub mod reader;
pub mod runner_error;
pub mod script_value;
pub mod template;
pub mod text;
pub mod value;
pub mod variables;
