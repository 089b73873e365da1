//! Compiles declarative scaffolding documents into validated actions, orders
//! suites by their requirements, and decides the text and path work that the
//! actions perform.
pub mod text;
pub mod words;
pub mod path;
pub mod document;
pub mod value;
pub mod substitute;
pub mod traverser;
pub mod actions;
pub mod config;
pub mod depgraph;
pub mod graph;
pub mod executor;
