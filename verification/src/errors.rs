//! Typed errors returned by the vault operations.

use vstd::prelude::*;

verus! {

/// The failure kinds a vault operation can report.
///
/// `Validation` rejects untrusted input before any file system work,
/// `NotFound` reports a missing vault, asset or file, `Io` stands for an
/// underlying read/write/rename/delete failure, and `Cancelled` reports a
/// dialog dismissed by the user.
#[derive(Clone, Copy, Debug, PartialEq, Eq, Structural)]
pub enum VaultError {
    Validation,
    NotFound,
    Io,
    Cancelled,
}

} // verus!
