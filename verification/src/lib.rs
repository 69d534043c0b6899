//! Companion service core for publishing container domain mappings to a
//! key-value registry: a domain-spec parser, an error-escalation policy
//! engine, and a cancellable reconciliation loop.

pub mod common;
pub mod companion;
pub mod domain_spec;
pub mod dsl;
pub mod inspector;
pub mod json_serializer;
pub mod publisher;
