//! Demultiplexing of paired-end sequencing reads that carry a combinatorial
//! barcode: a barcode dictionary with single-mismatch disambiguation, a
//! bounded sliding-window matcher, and a four-stage matching pipeline that
//! turns a raw read pair into an accept/reject decision plus a reconstructed
//! output record.

pub mod barcodes;
pub mod bytemap;
pub mod cli;
pub mod config;
pub mod laws;
pub mod log;
pub mod pipeline;
pub mod seqops;
pub mod seqspec;
