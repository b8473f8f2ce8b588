//! What user code declares: payloads, components and specification trees.

pub mod component;
pub mod elements_only;
pub mod props;
