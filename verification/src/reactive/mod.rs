//! Identity, persisted state and the reconciliation of specification trees.

pub mod ahead;
pub mod element_id;
pub mod kept_state;
pub mod laws;
pub mod reactive;
pub mod reconcile;
pub mod state_store;
pub mod sweep;
pub mod tree;
pub mod use_state;
