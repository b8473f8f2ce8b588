//! Events, the messages that carry them between the window and the
//! application, and the decisions both sides take on them.

pub mod app_message;
pub mod application;
pub mod events;
pub mod window;
