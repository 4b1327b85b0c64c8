//! Diagnostics of language servers and of extensions.

pub mod external;
pub mod laws;
pub mod model;
pub mod snapshot;
