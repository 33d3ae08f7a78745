//! Command orchestration core of an edge-device agent: entity addressing,
//! command states with sub-command chaining, the entity registry, and the
//! bookkeeping of long-running operations.
pub mod text;
pub mod topics;
pub mod json;
pub mod command;
pub mod state;
pub mod firmware;
pub mod software;
pub mod config;
pub mod entity_store;
