//! Position-aware model of Buildkite pipeline documents: a tree of nodes with
//! source ranges, point queries on that tree, and a documentation and
//! validation model derived from the pipeline's JSON schema.
pub mod position;
pub mod text;
pub mod lines;
pub mod parser;
pub mod grammar;
pub mod yaml;
pub mod index;
pub mod laws;
pub mod json;
pub mod schema;
pub mod diagnostics;
pub mod hover;
pub mod completion;
pub mod store;
