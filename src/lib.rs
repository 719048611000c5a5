//! Amplicon detection: find the regions of a DNA sequence that lie between a
//! forward primer and the reverse complement of a reverse primer.

pub mod dna;
pub mod model;
pub mod primer;
pub mod search;
