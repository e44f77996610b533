//! Credential-gated, rate-limited ingestion and retrieval of small
//! fixed-format observations.
//!
//! The crate holds the rules of the service as verified functions on plain
//! values: how a credential is written and read, which identifiers and
//! payloads are accepted, when a submission is admitted, how a requested
//! result count is bounded, and what the record store answers.

pub mod admission;
pub mod api;
pub mod auth;
pub mod codec;
pub mod config;
pub mod credential;
pub mod error;
pub mod limit;
pub mod migration;
pub mod observation;
pub mod state;
pub mod store;
pub mod text;
