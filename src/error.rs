//! Failures that the bridge reports to its callers.
use vstd::prelude::*;

verus! {

/// A link's configuration cannot be used.
#[derive(Debug, Clone, Copy, PartialEq, Eq, Structural)]
pub enum ConfigError {
    /// No `token` setting, under any case of the key.
    MissingToken,
}

/// Why a reply published by a plugin was not delivered.
#[derive(Debug, PartialEq, Eq)]
pub enum PublishError {
    /// The publisher did not say which tenant it acts for.
    MissingTenant,
    /// No link is registered for the tenant.
    UnknownLink,
    /// No live pending reply under the message's subject.
    NotFound,
    /// The chat platform refused the outbound message.
    DeliveryFailed(String),
    /// The operation is not offered.
    NotImplemented,
}

} // verus!
