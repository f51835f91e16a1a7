//! A compiler and execution pipeline for a small declarative graph-pattern
//! query language: query text is parsed into an AST, graph patterns are
//! decomposed into a relational-algebra plan, the plan is lowered into
//! pull-based operators, and scalar expressions are evaluated per row.
//!
//! The backing relational store and the request boundary live outside this
//! crate; execution here runs against tables handed in as plain values.

pub mod ast;
pub mod builder;
pub mod catalog;
pub mod context;
pub mod error;
pub mod eval;
pub mod executor;
pub mod idgen;
pub mod laws;
pub mod implement;
pub mod metadata;
pub mod parser;
pub mod plan;
pub mod planner;
pub mod store;
pub mod render;
pub mod types;
pub mod walker;
