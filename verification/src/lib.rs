//! Governance backend core: an in-memory store of proposals and user
//! profiles with one-vote-per-identity semantics, a byte-level snapshot
//! codec for surviving process restarts, deterministic identity
//! generation, and the prompt-building / response-parsing logic of the
//! AI-assisted proposal authoring service.

pub mod model;
pub mod ident;
pub mod store;
pub mod snapshot;
pub mod authoring;
