//! Annotates genomic regions with the gene features they fall near or inside.
//!
//! The crate classifies each region-to-transcript relationship into one of
//! eight zones (TSS, first exon, promoter, TTS, intron, gene body, upstream,
//! downstream) and collapses the raw observations into one best annotation
//! per reporting level (exon, transcript or gene).

pub mod config;
pub mod matcher;
pub mod parser;
pub mod pct;
pub mod text;
pub mod types;

pub use pct::Pct;
pub use types::{Candidate, Gene, Region, Transcript};
