//! What holds of every reconciliation pass, proved of the model in
//! [`crate::reactive::reconcile`].

pub mod freshness;
pub mod keys;
pub mod numbering;
pub mod passes;
pub mod replay;
pub mod stability;
pub mod state;
pub mod transparency;
pub mod well_formed;
