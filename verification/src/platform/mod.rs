//! What the framework takes from the platform it runs on.

pub mod resource_manager;
