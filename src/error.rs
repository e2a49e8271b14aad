//! Errors of the analytics core.

use vstd::prelude::*;

use crate::rate_limit::RateLimitError;
use crate::rbac::RBACError;

verus! {

/// Errors returned by the analytics core.
#[derive(Clone, Debug)]
pub enum AnalyticsError {
    /// No such monitored application.
    ApplicationNotFound(String),
    /// The query endpoint is not valid.
    InvalidEndpoint(String),
    /// Event processing failed.
    EventProcessingError(String),
    /// A query failed.
    QueryError(String),
    /// The caller lacks the permission.
    Unauthorized,
    /// A metric definition is not valid.
    InvalidMetric(String),
    /// Storage failed.
    StorageError(String),
    /// Role management refused the change.
    RBACError(RBACError),
    /// Admission control refused the event.
    RateLimitError(RateLimitError),
    /// An event with this transaction hash was already captured.
    DuplicateEvent(String),
    /// A Merkle proof did not verify.
    MerkleProofFailed,
    /// No such event.
    EventNotFound(u64),
    /// The operation is not valid.
    InvalidOperation(String),
    /// A batch was only partly processed.
    BatchOperationFailed { processed: usize, total: usize },
    /// Cross-chain communication failed.
    CrossChainError(String),
    /// The configuration is not valid.
    ConfigError(String),
}

} // verus!
