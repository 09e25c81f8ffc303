//! What can go wrong with a container.

use crate::shell::prefixed;
use vstd::prelude::*;
use vstd::string::*;

verus! {

/// What can go wrong with a container.
#[derive(Debug)]
pub enum ContainerError {
    NotFound(String),
    AlreadyExists(String),
    LxcCommandFailed(String),
    InvalidConfig(String),
    Io(String),
    Parse(String),
}

impl ContainerError {
    /// The text that precedes the detail of each variant.
    pub open spec fn prefix(self) -> Seq<char> {
        match self {
            ContainerError::NotFound(_) => "Container not found: "@,
            ContainerError::AlreadyExists(_) => "Container already exists: "@,
            ContainerError::LxcCommandFailed(_) => "LXC command failed: "@,
            ContainerError::InvalidConfig(_) => "Invalid configuration: "@,
            ContainerError::Io(_) => "IO error: "@,
            ContainerError::Parse(_) => "Parse error: "@,
        }
    }

    /// The detail carried by the variant.
    pub open spec fn detail(self) -> Seq<char> {
        match self {
            ContainerError::NotFound(s) => s@,
            ContainerError::AlreadyExists(s) => s@,
            ContainerError::LxcCommandFailed(s) => s@,
            ContainerError::InvalidConfig(s) => s@,
            ContainerError::Io(s) => s@,
            ContainerError::Parse(s) => s@,
        }
    }

    /// The human-readable rendering of the error.
    pub fn message(&self) -> (text: String)
        ensures
            text@ == self.prefix() + self.detail(),
    {
        match self {
            ContainerError::NotFound(s) => prefixed("Container not found: ", s.as_str()),
            ContainerError::AlreadyExists(s) => prefixed("Container already exists: ", s.as_str()),
            ContainerError::LxcCommandFailed(s) => prefixed("LXC command failed: ", s.as_str()),
            ContainerError::InvalidConfig(s) => prefixed("Invalid configuration: ", s.as_str()),
            ContainerError::Io(s) => prefixed("IO error: ", s.as_str()),
            ContainerError::Parse(s) => prefixed("Parse error: ", s.as_str()),
        }
    }

    /// The status of the answer that reports the error: 404 for a
    /// container that is not there, 409 for one that is there already, 500
    /// for everything else.
    pub fn status_code(&self) -> (status: u16)
        ensures
            status == match self {
                ContainerError::NotFound(_) => 404u16,
                ContainerError::AlreadyExists(_) => 409u16,
                _ => 500u16,
            },
    {
        match self {
            ContainerError::NotFound(_) => 404,
            ContainerError::AlreadyExists(_) => 409,
            _ => 500,
        }
    }
}

} // verus!
