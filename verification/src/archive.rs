//! Bounded, read-only archive indexing and entry reads.

pub mod entries;
pub mod error;
pub mod laws;
pub mod name_set;
pub mod read;
pub mod tar_index;
pub mod zip_directory;
