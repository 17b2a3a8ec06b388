//! What the caller of an administrative operation is told about how it
//! ended. No detail of a failure goes out: every failure that leaves the
//! service able to go on is the same server error.

use crate::deploy::DeployReport;
use crate::sync::SyncError;
use vstd::prelude::*;

verus! {

/// The answer to the caller of an administrative operation.
#[derive(Clone, Copy, Debug, PartialEq, Eq, Structural)]
pub enum Signal {
    /// The operation succeeded.
    Success,
    /// The operation failed; the service goes on.
    ServerError,
    /// The operation failed and left the tree in an unknown state: the
    /// service must not go on serving it.
    Fatal,
}

/// The answer that a refresh from the object store ends with.
pub open spec fn refresh_signal_spec(result: Result<(), SyncError>) -> Signal {
    match result {
        Ok(_) => Signal::Success,
        Err(_) => Signal::ServerError,
    }
}

/// Returns the answer that a refresh from the object store ends with: every
/// failure, of the store or of the disk, is a server error.
pub fn refresh_signal(result: Result<(), SyncError>) -> (signal: Signal)
    ensures
        signal == refresh_signal_spec(result),
{
    match result {
        Ok(_) => Signal::Success,
        Err(_) => Signal::ServerError,
    }
}

/// The answer that a deployment ends with.
pub open spec fn deploy_signal_spec(report: DeployReport) -> Signal {
    match report {
        DeployReport::Deployed => Signal::Success,
        DeployReport::Failed(_) => Signal::ServerError,
        DeployReport::Unrecoverable => Signal::Fatal,
    }
}

/// Returns the answer that a deployment ends with. A deployment that was
/// rolled back is still a failure; one whose rollback failed is fatal.
pub fn deploy_signal(report: DeployReport) -> (signal: Signal)
    ensures
        signal == deploy_signal_spec(report),
{
    match report {
        DeployReport::Deployed => Signal::Success,
        DeployReport::Failed(_) => Signal::ServerError,
        DeployReport::Unrecoverable => Signal::Fatal,
    }
}

/// Only a deployment that ended with the uploaded content in place is
/// answered with success.
pub proof fn lemma_only_deployed_succeeds(report: DeployReport)
    ensures
        deploy_signal_spec(report) == Signal::Success <==> report == DeployReport::Deployed,
{
}

} // verus!
