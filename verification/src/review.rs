//! Durable state for reviews of changes that an agent made.
//!
//! The state holds review metadata alone. Editor anchors are transient and are made anew from
//! the target metadata when a diff is opened again.
pub mod changes;
pub mod laws;
pub mod record;
pub mod scope;
pub mod snapshot;
pub mod store;
