//! What can go wrong with storage.

use crate::shell::prefixed;
use crate::text::{decimal, push_decimal};
use vstd::prelude::*;
use vstd::string::*;

verus! {

/// What can go wrong with storage. Sizes are in bytes.
#[derive(Debug)]
pub enum StorageError {
    PoolNotFound(String),
    VolumeNotFound(String),
    OperationFailed(String),
    InsufficientSpace(u64, u64),
    Io(String),
}

impl StorageError {
    /// The human-readable rendering of the error.
    pub open spec fn text(self) -> Seq<char> {
        match self {
            StorageError::PoolNotFound(s) => "Storage pool not found: "@ + s@,
            StorageError::VolumeNotFound(s) => "Volume not found: "@ + s@,
            StorageError::OperationFailed(s) => "Storage operation failed: "@ + s@,
            StorageError::InsufficientSpace(requested, available) => "Insufficient space: requested "@
                + decimal(requested as nat) + ", available "@ + decimal(available as nat),
            StorageError::Io(s) => "IO error: "@ + s@,
        }
    }

    /// The human-readable rendering of the error.
    pub fn message(&self) -> (text: String)
        ensures
            text@ == self.text(),
    {
        match self {
            StorageError::PoolNotFound(s) => prefixed("Storage pool not found: ", s.as_str()),
            StorageError::VolumeNotFound(s) => prefixed("Volume not found: ", s.as_str()),
            StorageError::OperationFailed(s) => prefixed("Storage operation failed: ", s.as_str()),
            StorageError::InsufficientSpace(requested, available) => {
                let mut text = String::from_str("Insufficient space: requested ");
                push_decimal(&mut text, *requested);
                text.append(", available ");
                push_decimal(&mut text, *available);
                text
            },
            StorageError::Io(s) => prefixed("IO error: ", s.as_str()),
        }
    }
}

} // verus!
