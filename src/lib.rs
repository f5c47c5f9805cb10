//! Relay selection and delivery confirmation for a direct message sent over a
//! set of independently operated relays: candidate sets, preference discovery,
//! liveness filtering and acknowledgement aggregation under a deadline.

pub mod address;
pub mod candidates;
pub mod discovery;
pub mod liveness;
pub mod delivery;
pub mod plan;
