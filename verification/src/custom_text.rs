//! Extension-owned text annotations.

pub mod annotation_laws;
pub mod annotations;
pub mod edits;
pub mod ranges;
pub mod store;
pub mod tint;
