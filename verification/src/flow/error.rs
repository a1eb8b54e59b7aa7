//! Errors of the flow and storage layers.

use vstd::prelude::*;

verus! {

/// Errors of the flow and storage layers. Device identifiers are UUIDs, held as their
/// 128-bit value.
#[derive(Debug)]
pub enum FlowError {
    PersistenceError(String),
    SubscriptionError(String),
    StorageBackendError(String),
    ConfigurationError(String),
    DeviceIdentityError(String),
    SerializationError(String),
    UnknownFlowType(String),
    FlowNotFound(u128),
    InvalidStreamName(String),
    StreamNotImplemented(String),
    HostUnavailable(u128),
    NotHost(u128),
    SyncError(String),
}

/// A persistence error carrying `message`.
pub fn persistence_error(message: &str) -> (e: FlowError)
    ensures
        e matches FlowError::PersistenceError(m) && m@ == message@,
{
    FlowError::PersistenceError(message.to_string())
}

} // verus!
