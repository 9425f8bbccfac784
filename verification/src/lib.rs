//! Consistency core of a social/messaging backend: users, symmetric
//! friendship relations, channel and guild membership, and a role-based
//! permission model, all mutated through short atomic command handlers
//! over an explicit table state.
//!
//! The transactional host (durability, indexing, client sync) is out of
//! scope here: every handler is a pure function of the current state, the
//! caller's identity and the arguments, and either applies its mutations
//! or returns a tagged failure reason leaving the state untouched.

pub mod db;
pub mod errors;
pub mod identity;
pub mod ids;
pub mod membership;
pub mod messages;
pub mod permissions;
pub mod relations;
pub mod rows;
pub mod validation;
