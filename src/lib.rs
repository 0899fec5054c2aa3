//! Multi-tenant bridge between a chat platform and a message-handling plugin.
//!
//! The library holds the decisions: which tenants are linked, which inbound
//! messages may still be answered, and what an outbound reply turns into.
//! Sessions, timers and the transport live around it.
pub mod bridge;
pub mod config;
pub mod correlation;
pub mod error;
pub mod registry;

pub use bridge::{
    classify_dispatch, dispatch_inbound, finish_delivery, has_replacement, publish, request,
    CanonicalMessage, ChatEvent, Delivery, DispatchOutcome, REPLACEMENT,
};
pub use config::link_token;
pub use correlation::{CorrelationStore, PendingReply, ReplyContext, REPLY_TTL_MS};
pub use error::{ConfigError, PublishError};
pub use registry::{Link, LinkRegistry};
