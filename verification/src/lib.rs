//! Signed capability tokens for subscription requests on mesh-network nodes,
//! the state machine that executes them, and the reconciler that decides which
//! subscribers are owed a status notification.

pub mod action;
pub mod codec;
pub mod token;
pub mod store;
pub mod executor;
pub mod reconcile;
