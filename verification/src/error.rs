//! The failures of the engine.
use vstd::prelude::*;

verus! {

/// A threshold of the anti-pattern detector.
#[derive(Debug, Clone, Copy, PartialEq, Eq, Structural)]
pub enum Threshold {
    Bottleneck,
    OverCoupling,
}

/// A part that an interchange payload must have.
#[derive(Debug, Clone, Copy, PartialEq, Eq, Structural)]
pub enum Missing {
    /// The array of nodes.
    Nodes,
    /// The array of edges.
    Edges,
    /// The identifier of a node.
    NodeId,
    /// The source of an edge.
    EdgeFrom,
    /// The target of an edge.
    EdgeTo,
}

/// The ways in which an operation of the engine can fail.
#[derive(Debug, Clone, Copy, PartialEq, Eq, Structural)]
pub enum OptaError {
    /// A layout was asked for a model without nodes.
    EmptyModel,
    /// A layout was asked for before the adjacency matrix was built.
    MatrixNotBuilt,
    /// The named detection threshold is below one.
    InvalidConfiguration(Threshold),
    /// The named part is missing from an interchange payload.
    MalformedInterchange(Missing),
}

impl OptaError {
    /// What went wrong, in words.
    pub open spec fn text(self) -> Seq<char> {
        match self {
            OptaError::EmptyModel => "Cannot optimize empty model"@,
            OptaError::MatrixNotBuilt =>
                "Adjacency matrix not built. Call build_adjacency_matrix() first"@,
            OptaError::InvalidConfiguration(Threshold::Bottleneck) =>
                "Invalid bottleneck_threshold: 0 (must be >= 1)"@,
            OptaError::InvalidConfiguration(Threshold::OverCoupling) =>
                "Invalid over_coupling_threshold: 0 (must be >= 1)"@,
            OptaError::MalformedInterchange(Missing::Nodes) => "Missing 'nodes' array"@,
            OptaError::MalformedInterchange(Missing::Edges) => "Missing 'edges' array"@,
            OptaError::MalformedInterchange(Missing::NodeId) => "Node missing 'id'"@,
            OptaError::MalformedInterchange(Missing::EdgeFrom) => "Edge missing 'from'"@,
            OptaError::MalformedInterchange(Missing::EdgeTo) => "Edge missing 'to'"@,
        }
    }

    /// What went wrong, in words.
    pub fn message(&self) -> (message: String)
        ensures
            message@ == self.text(),
    {
        let text: &'static str = match self {
            OptaError::EmptyModel => "Cannot optimize empty model",
            OptaError::MatrixNotBuilt =>
                "Adjacency matrix not built. Call build_adjacency_matrix() first",
            OptaError::InvalidConfiguration(Threshold::Bottleneck) =>
                "Invalid bottleneck_threshold: 0 (must be >= 1)",
            OptaError::InvalidConfiguration(Threshold::OverCoupling) =>
                "Invalid over_coupling_threshold: 0 (must be >= 1)",
            OptaError::MalformedInterchange(Missing::Nodes) => "Missing 'nodes' array",
            OptaError::MalformedInterchange(Missing::Edges) => "Missing 'edges' array",
            OptaError::MalformedInterchange(Missing::NodeId) => "Node missing 'id'",
            OptaError::MalformedInterchange(Missing::EdgeFrom) => "Edge missing 'from'",
            OptaError::MalformedInterchange(Missing::EdgeTo) => "Edge missing 'to'",
        };
        String::from_str(text)
    }
}

} // verus!
