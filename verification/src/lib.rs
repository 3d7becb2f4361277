//! Genomic region-to-gene matching library.
//!
//! Associates genomic regions with gene annotations based on positional
//! overlap and proximity:
//!
//! - strand-aware TSS/TTS/promoter zone checking via coordinate mirroring,
//! - per-region classification of exon/intron/gene-body overlaps,
//! - configurable priority rules for tie-breaking at exon, transcript, or
//!   gene granularity,
//! - deterministic chunk reassembly so that concurrent processing emits
//!   results in input order.
//!
//! Percentages are kept as exact integer rationals ([`pct::Pct`]), so every
//! coverage computation and threshold comparison is exact.

pub mod config;
pub mod matcher;
pub mod output;
pub mod parser;
pub mod pct;
pub mod schedule;
pub mod text;
pub mod types;

pub use config::Config;
pub use pct::Pct;
pub use types::{Area, Candidate, Gene, Region, ReportLevel, Strand, Transcript};
