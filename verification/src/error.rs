//! What can go wrong while a registry is restored or a scan is driven.

use vstd::prelude::*;

verus! {

/// The failures that the library reports.
#[derive(Clone, Copy, Debug, PartialEq, Eq, Structural)]
pub enum ScanError {
    /// The stored bytes do not hold a registry. The load is given up; nothing
    /// is repaired and no empty registry is handed out in its place.
    CorruptState,
    /// The block provider failed, or answered with a block of another height
    /// than the one asked for. The run ends at the last merged height.
    ProviderUnavailable,
}

impl ScanError {
    /// A short description for a report.
    pub fn describe(&self) -> (text: &'static str)
        ensures
            text@ == match *self {
                ScanError::CorruptState => "stored registry is corrupt"@,
                ScanError::ProviderUnavailable => "block provider is unavailable"@,
            },
    {
        match self {
            ScanError::CorruptState => "stored registry is corrupt",
            ScanError::ProviderUnavailable => "block provider is unavailable",
        }
    }
}

} // verus!
