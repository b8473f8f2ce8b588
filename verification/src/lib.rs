//! A retained-mode UI core: user code declares a tree of component
//! specifications, and the reconciler turns it, render after render, into an
//! element tree while keeping the identity and the state of every node that
//! is still the same logical instance.
//!
//! - [`components`]: what user code declares: payloads, the `Component`
//!   trait and specification trees.
//! - [`elements`]: the concrete primitives, their outlines, and identifiers
//!   for element trees that are compared directly.
//! - [`reactive`]: identifiers, the state store, the shadow tree, the
//!   reconciler, what a pass needs of the store and keeps of the allocator,
//!   and the laws that hold of every pass.
//! - [`engine`]: events and messages, and what the two sides of the event
//!   loop decide on them.
//! - [`renderer`] and [`platform`]: pixels for a window surface, and
//!   resources.

pub mod components;
pub mod decimal;
pub mod elements;
pub mod engine;
pub mod options;
pub mod platform;
pub mod reactive;
pub mod renderer;
pub mod vectors;

pub use options::{OkuOptions, RendererType};
