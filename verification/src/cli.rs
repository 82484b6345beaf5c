//! The run's command-line parameters as plain data; parsing them from the
//! actual command line happens outside the library.

use vstd::prelude::*;

verus! {

/// Everything one invocation needs: the two read paths, the output prefix,
/// the configuration path, and the run parameters.
pub struct Cli {
    /// Input file for the first read of each pair.
    pub r1: String,
    /// Input file for the second read of each pair.
    pub r2: String,
    /// Output file prefix.
    pub prefix: String,
    /// How far into the first read the first barcode may start.
    pub offset: usize,
    /// The configuration file describing the four barcode sets and spacers.
    pub config: String,
    /// The length of the UMI.
    pub umi_len: usize,
    /// Exact matching only: no single-mismatch correction.
    pub exact: bool,
    /// Keep the spacers in reconstructed output.
    pub linkers: bool,
    /// Do not echo the run summary.
    pub quiet: bool,
}

} // verus!
