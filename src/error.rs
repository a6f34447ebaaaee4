//! Failures of graph construction.
use vstd::prelude::*;
use vstd::string::StringExecFns;

verus! {

/// Why building a graph failed. Each failure aborts the whole operation.
#[derive(Debug, Clone)]
pub enum GraphError {
    /// The file could not be read.
    Unreadable { path: String },
    /// Tree-sitter gave no syntax tree for the file.
    Unparseable { path: String },
    /// An edge of a file's graph names a node that its graph does not hold.
    MissingEndpoint { path: String },
    /// The merged graph would hold more nodes or edges than `u32` indices allow.
    TooLarge,
}

impl GraphError {
    /// A human-readable description.
    pub fn message(&self) -> String {
        match self {
            GraphError::Unreadable { path } => {
                let mut m = String::from_str("cannot read file: ");
                m.append(path.as_str());
                m
            },
            GraphError::Unparseable { path } => {
                let mut m = String::from_str("cannot parse file: ");
                m.append(path.as_str());
                m
            },
            GraphError::MissingEndpoint { path } => {
                let mut m = String::from_str("edge endpoint missing from the node mapping in: ");
                m.append(path.as_str());
                m
            },
            GraphError::TooLarge => String::from_str("graph too large for its index type"),
        }
    }
}

} // verus!
