//! Parsing helpers for annotation records.

pub mod gtf;

pub use gtf::extract_attribute;
