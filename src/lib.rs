//! Symbol graphs of source files: per-file extraction of top-level symbols
//! and call edges, and a merge of many per-file graphs into one graph with
//! stable identities and provenance.

pub mod discovery;
pub mod error;
pub mod graph;
pub mod import;
pub mod parser;
pub mod python;
pub mod syntax;

pub use error::GraphError;
pub use graph::{Edge, EdgeIndex, EdgeType, Graph, Node, NodeIndex, NodeType};
pub use parser::{merge_all, parse_files, Language, MultiFileGraph, Parser};
