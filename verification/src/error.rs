//! The ways in which a synchronisation run, or one unit of it, can fail.
use vstd::prelude::*;

verus! {

/// Why a run, a secret or one secret/namespace pair could not be completed.
///
/// Only `DiscoveryFailure` ends a run. Every other failure is confined to the
/// secret, or to the secret and namespace, on which it occurred.
#[derive(Clone, Copy, Debug, PartialEq, Eq, Structural)]
pub enum SyncError {
    /// The secret store could not list the tagged secrets.
    DiscoveryFailure,
    /// The secret store could not hand out the payload of one secret.
    FetchFailure,
    /// A secret carries no tag for the destination name or for the namespaces.
    MissingTag,
    /// A payload is not a JSON object of string fields.
    MalformedPayload,
    /// The cluster refused or failed to apply one secret in one namespace.
    ApplyFailure,
}

/// The exit status of a run that ended with `error`: zero where the run has
/// completed, whatever failed for single secrets, and one where it has not.
pub open spec fn exit_code_of(error: Option<SyncError>) -> u8 {
    match error {
        None => 0,
        Some(_) => 1,
    }
}

/// The exit status of a run that ended with `error`: zero where the run has
/// completed, whatever failed for single secrets, and one where it has not.
pub fn exit_code(error: Option<SyncError>) -> (code: u8)
    ensures
        code == exit_code_of(error),
{
    match error {
        None => 0,
        Some(_) => 1,
    }
}

impl SyncError {
    /// Whether the failure ends the whole run.
    pub open spec fn is_fatal(self) -> bool {
        self == SyncError::DiscoveryFailure
    }

    /// Whether the failure ends the whole run.
    pub fn fatal(&self) -> (fatal: bool)
        ensures
            fatal == self.is_fatal(),
    {
        match self {
            SyncError::DiscoveryFailure => true,
            _ => false,
        }
    }
}

} // verus!
