//! Dependency-graph core of a data-transformation build tool.
//!
//! Named textual queries are ingested into a registry, their table
//! references are resolved through the query-language front end, and the
//! whole set is compiled into a validated directed acyclic graph that
//! fixes a build order.  Construction fails — and no graph value ever
//! exists — when an edge names an undeclared node, when the cleaned node
//! set is empty, or when the edges close a cycle.

pub mod assoc;
pub mod digraph;
pub mod frontend;
pub mod graph;
pub mod ident;
pub mod meta;
pub mod query;
pub mod settings;
