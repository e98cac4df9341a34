//! Automated certificate lifecycle management.
//!
//! The crate models the core of a service that keeps itself reachable over an
//! encrypted transport: it negotiates certificates with an issuing authority,
//! persists them crash-atomically, watches their expiry, renews them in time,
//! and hands the current certificate to the transport layer on every incoming
//! handshake.
//!
//! - [`cert`]: certificate records and the renewal decision.
//! - [`protocol`]: the data model of the issuance protocol.
//! - [`authority`]: the issuing authority at its protocol boundary.
//! - [`store`]: crash-atomic persistence for account and records.
//! - [`responder`]: the table of challenge proofs currently exposed.
//! - [`resolver`]: the per-domain holder of the live certificate.
//! - [`orchestrator`]: the lifecycle state machine and the issuance cycle.
//! - [`handler`]: the decision logic of the path-existence request handler.

pub mod authority;
pub mod cert;
pub mod handler;
pub mod orchestrator;
pub mod protocol;
pub mod resolver;
pub mod responder;
pub mod store;
