//! Helpers shared with the input-file loaders, which live outside the
//! verified core.

pub mod bed;

pub use bed::get_bed_headers;
