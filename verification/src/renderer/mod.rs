//! What drawing needs of the core, apart from the backends themselves.

pub mod softbuffer;
