//! Derives the SQL objects of a database extension from declarations written
//! in the host language: the extension manifest, the shapes of aggregate
//! arguments, aggregate descriptors, the graph of SQL entities, and the
//! ordered DDL text that the graph renders to.

pub mod aggregate;
pub mod control_file;
pub mod decimal;
pub mod entity;
pub mod entity_graph;
pub mod integer_avg;
pub mod linearize;
pub mod maybe_variadic_type;
pub mod sql;
pub mod text;
