//! The kinds of failure that the library reports.

use vstd::prelude::*;

verus! {

/// A failure, typed by the stage that failed. Each carries a description.
#[derive(Debug)]
pub enum SharingError {
    /// The provider configuration cannot be used: an unsupported credentials
    /// version, or an endpoint that is not a URL.
    Config { message: String },
    /// The server could not be reached, or a transfer broke off.
    Transport { message: String },
    /// A response does not have the shape or order that the protocol fixes.
    Protocol { message: String },
    /// Reading or writing the local cache failed.
    CacheIo { message: String },
}

impl SharingError {
    /// The description carried by the error.
    pub fn message(&self) -> (r: &String)
        ensures
            r == match self {
                SharingError::Config { message } => message,
                SharingError::Transport { message } => message,
                SharingError::Protocol { message } => message,
                SharingError::CacheIo { message } => message,
            },
    {
        match self {
            SharingError::Config { message } => message,
            SharingError::Transport { message } => message,
            SharingError::Protocol { message } => message,
            SharingError::CacheIo { message } => message,
        }
    }
}

} // verus!
