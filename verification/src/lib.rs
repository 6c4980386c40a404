//! A template engine: reads a text template with conditionals, loops,
//! expressions and comments, and renders it for a structured configuration.
//!
//! [`evaluate::parse_template`] reads a template, [`evaluate::evaluate_file`]
//! renders it, [`function::apply_function`] applies one of the functions
//! that an expression can call. Each is verified against the specification
//! function that stands beside it: [`grammar::parsed`],
//! [`evaluate::rendered`] and [`function::applied`].

pub mod data;
pub mod decimal;
pub mod error;
pub mod evaluate;
pub mod function;
pub mod grammar;
pub mod json;
pub mod laws;
pub mod list_functions;
pub mod moment;
pub mod order;
pub mod parser;
pub mod pattern;
pub mod search;
pub mod shape;
pub mod template;
pub mod text;
pub mod text_functions;
pub mod words;
