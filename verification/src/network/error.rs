//! What can go wrong with the network.

use crate::shell::prefixed;
use vstd::prelude::*;
use vstd::string::*;

verus! {

/// What can go wrong with the network.
#[derive(Debug)]
pub enum NetworkError {
    InterfaceNotFound(String),
    BridgeExists(String),
    OperationFailed(String),
    Io(String),
    CommandFailed(String),
    Generic(String),
}

impl NetworkError {
    /// The text that precedes the detail of each variant.
    pub open spec fn prefix(self) -> Seq<char> {
        match self {
            NetworkError::InterfaceNotFound(_) => "Interface not found: "@,
            NetworkError::BridgeExists(_) => "Bridge already exists: "@,
            NetworkError::OperationFailed(_) => "Network operation failed: "@,
            NetworkError::Io(_) => "IO error: "@,
            NetworkError::CommandFailed(_) => "Command execution failed: "@,
            NetworkError::Generic(_) => "Generic error: "@,
        }
    }

    /// The detail carried by the variant.
    pub open spec fn detail(self) -> Seq<char> {
        match self {
            NetworkError::InterfaceNotFound(s) => s@,
            NetworkError::BridgeExists(s) => s@,
            NetworkError::OperationFailed(s) => s@,
            NetworkError::Io(s) => s@,
            NetworkError::CommandFailed(s) => s@,
            NetworkError::Generic(s) => s@,
        }
    }

    /// The human-readable rendering of the error.
    pub fn message(&self) -> (text: String)
        ensures
            text@ == self.prefix() + self.detail(),
    {
        match self {
            NetworkError::InterfaceNotFound(s) => prefixed("Interface not found: ", s.as_str()),
            NetworkError::BridgeExists(s) => prefixed("Bridge already exists: ", s.as_str()),
            NetworkError::OperationFailed(s) => prefixed("Network operation failed: ", s.as_str()),
            NetworkError::Io(s) => prefixed("IO error: ", s.as_str()),
            NetworkError::CommandFailed(s) => prefixed("Command execution failed: ", s.as_str()),
            NetworkError::Generic(s) => prefixed("Generic error: ", s.as_str()),
        }
    }

    /// The status of the answer that reports the error: 409 for a bridge
    /// that is there already, 500 for everything else.
    pub fn status_code(&self) -> (status: u16)
        ensures
            status == match self {
                NetworkError::BridgeExists(_) => 409u16,
                _ => 500u16,
            },
    {
        match self {
            NetworkError::BridgeExists(_) => 409,
            _ => 500,
        }
    }
}

} // verus!
