//! A PartiQL query engine: a data model for semi-structured values, a
//! parser for the PartiQL value notation, selectors and alias environments,
//! and the filtering and projection steps of query evaluation.
pub mod value;
pub mod models;
pub mod lang;
pub mod text;
pub mod sql;
pub mod planner;
pub mod engine;
pub mod pqlir_parser;
pub mod parser;
pub mod regex_support;
pub mod vector;
