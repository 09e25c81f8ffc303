//! What can go wrong inside the cluster layer.

use vstd::prelude::*;
use vstd::string::*;

verus! {

/// What can go wrong inside the cluster layer.
#[derive(Debug)]
pub enum ClusterError {
    NodeNotFound(String),
    OperationFailed(String),
    Network(String),
    Consensus(String),
    Io(String),
}

impl ClusterError {
    /// The text that precedes the detail of each variant.
    pub open spec fn prefix(self) -> Seq<char> {
        match self {
            ClusterError::NodeNotFound(_) => "Node not found: "@,
            ClusterError::OperationFailed(_) => "Cluster operation failed: "@,
            ClusterError::Network(_) => "Network error: "@,
            ClusterError::Consensus(_) => "Consensus error: "@,
            ClusterError::Io(_) => "IO error: "@,
        }
    }

    /// The detail carried by the variant.
    pub open spec fn detail(self) -> Seq<char> {
        match self {
            ClusterError::NodeNotFound(s) => s@,
            ClusterError::OperationFailed(s) => s@,
            ClusterError::Network(s) => s@,
            ClusterError::Consensus(s) => s@,
            ClusterError::Io(s) => s@,
        }
    }

    /// The human-readable rendering of the error.
    pub fn message(&self) -> (text: String)
        ensures
            text@ == self.prefix() + self.detail(),
    {
        let (head, tail) = match self {
            ClusterError::NodeNotFound(s) => ("Node not found: ", s),
            ClusterError::OperationFailed(s) => ("Cluster operation failed: ", s),
            ClusterError::Network(s) => ("Network error: ", s),
            ClusterError::Consensus(s) => ("Consensus error: ", s),
            ClusterError::Io(s) => ("IO error: ", s),
        };
        let mut text = String::from_str(head);
        text.append(tail.as_str());
        text
    }
}

} // verus!
