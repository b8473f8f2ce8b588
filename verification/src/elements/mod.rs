//! Concrete UI primitives and the trees they form.

pub mod container;
pub mod element;
pub mod empty;
pub mod style;
pub mod text;
pub mod trees;
