//! What can go wrong with a request.

use crate::layout::PlatformLayout;
use crate::text::{decimal, decimal_text};
use vstd::prelude::*;
use vstd::string::*;

verus! {

/// Why a patch request failed. Every failure ends the request; nothing is
/// retried.
#[derive(Debug, Clone, PartialEq, Eq)]
pub enum PatchError {
    /// The endpoint derived from the server id is longer than the endpoint
    /// slot: `got` bytes, where at most `max` fit.
    PayloadTooLarge { max: usize, got: usize },
    /// The base installation could not be found or fetched.
    Acquisition { detail: String },
    /// The per-server copy could not be built.
    Staging { detail: String },
    /// The binary could not be read or written.
    Io { detail: String },
    /// The patched bundle could not be signed again.
    Signing { detail: String },
}

/// Something that went wrong without ending the request. It is reported
/// beside the result.
#[derive(Debug, Clone, PartialEq, Eq)]
pub enum Warning {
    /// The downloaded archive could not be deleted after it was unpacked.
    ArchiveNotRemoved { detail: String },
}

/// Why a run request failed.
#[derive(Debug, Clone, PartialEq, Eq)]
pub enum RunError {
    /// Nothing has been staged for the server id.
    NotInstalled,
    /// The staged directory does not hold the executable or bundle.
    ExecutableMissing,
    /// The process could not be started.
    Spawn { detail: String },
}

/// What the user is told when an endpoint of `got` bytes is refused by a
/// slot of `max` bytes.
pub open spec fn too_large_text(max: nat, got: nat) -> Seq<char> {
    "URL too long! Max: "@ + decimal_text(max) + ", Got: "@ + decimal_text(got)
}

impl PatchError {
    /// What the user is told about the failure: the sizes for an endpoint
    /// that does not fit, and otherwise the account of the operation that
    /// failed.
    pub open spec fn text(&self) -> Seq<char> {
        match self {
            PatchError::PayloadTooLarge { max, got } => too_large_text(*max as nat, *got as nat),
            PatchError::Acquisition { detail } => detail@,
            PatchError::Staging { detail } => detail@,
            PatchError::Io { detail } => detail@,
            PatchError::Signing { detail } => detail@,
        }
    }

    /// The message for the user.
    pub fn message(&self) -> (message: String)
        ensures
            message@ == self.text(),
    {
        match self {
            PatchError::PayloadTooLarge { max, got } => {
                let mut message = String::from_str("URL too long! Max: ");
                let max_text = decimal(*max);
                message.append(max_text.as_str());
                message.append(", Got: ");
                let got_text = decimal(*got);
                message.append(got_text.as_str());
                message
            },
            PatchError::Acquisition { detail } => detail.clone(),
            PatchError::Staging { detail } => detail.clone(),
            PatchError::Io { detail } => detail.clone(),
            PatchError::Signing { detail } => detail.clone(),
        }
    }
}

impl RunError {
    /// What the user is told about the failure. What is missing from a
    /// staged directory depends on the layout: the bundle, or the
    /// executable.
    pub open spec fn text(&self, layout: PlatformLayout) -> Seq<char> {
        match self {
            RunError::NotInstalled => "Server not installed"@,
            RunError::ExecutableMissing => match layout {
                PlatformLayout::Bundle => "Game bundle not found"@,
                PlatformLayout::FlatBinary => "Game executable not found"@,
            },
            RunError::Spawn { detail } => detail@,
        }
    }

    /// The message for the user.
    pub fn message(&self, layout: PlatformLayout) -> (message: String)
        ensures
            message@ == self.text(layout),
    {
        match self {
            RunError::NotInstalled => String::from_str("Server not installed"),
            RunError::ExecutableMissing => match layout {
                PlatformLayout::Bundle => String::from_str("Game bundle not found"),
                PlatformLayout::FlatBinary => String::from_str("Game executable not found"),
            },
            RunError::Spawn { detail } => detail.clone(),
        }
    }
}

} // verus!
