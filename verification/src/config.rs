//! Four barcode dictionaries chained into one run configuration: stage
//! dispatch for the matcher and reconstruction of the corrected output
//! sequence.

use vstd::prelude::*;
use vstd::string::StringSliceAdditionalSpecFns;

use crate::barcodes::{parse_result_ok, BarcodeError, Barcodes, Spacer};
use crate::seqops::push_all;
use crate::seqspec::{barcode_seqs, submatch_result_ok, uniform_len};

verus! {

/// The decoded text form of a run configuration: four barcode-set sources
/// and three spacers.
pub struct ConfigYaml {
    pub barcodes: ConfigBarcodes,
    pub spacers: ConfigSpacers,
}

/// Paths of the four barcode-set files.
pub struct ConfigBarcodes {
    pub bc1: String,
    pub bc2: String,
    pub bc3: String,
    pub bc4: String,
}

/// The three spacer literals; the fourth barcode set carries no spacer.
pub struct ConfigSpacers {
    pub s1: String,
    pub s2: String,
    pub s3: String,
}

/// A run configuration: one dictionary per barcode stage, and whether
/// reconstructed output keeps the spacers.
pub struct Config {
    bc1: Barcodes,
    bc2: Barcodes,
    bc3: Barcodes,
    bc4: Barcodes,
    linkers: bool,
}

impl Config {
    /// The dictionary of stage `k` (0 to 3).
    pub closed spec fn spec_set(&self, k: int) -> Barcodes {
        if k == 0 {
            self.bc1
        } else if k == 1 {
            self.bc2
        } else if k == 2 {
            self.bc3
        } else {
            self.bc4
        }
    }

    /// Whether reconstructed output keeps the spacers.
    pub closed spec fn spec_linkers(&self) -> bool {
        self.linkers
    }

    pub open spec fn wf(&self) -> bool {
        &&& self.spec_set(0).wf()
        &&& self.spec_set(1).wf()
        &&& self.spec_set(2).wf()
        &&& self.spec_set(3).wf()
    }

    /// A configuration from four loaded dictionaries.
    pub fn new(bc1: Barcodes, bc2: Barcodes, bc3: Barcodes, bc4: Barcodes, linkers: bool) -> (r:
        Config)
        ensures
            r.spec_set(0) == bc1,
            r.spec_set(1) == bc2,
            r.spec_set(2) == bc3,
            r.spec_set(3) == bc4,
            r.spec_linkers() == linkers,
    {
        Config { bc1, bc2, bc3, bc4, linkers }
    }

    /// A configuration from the four barcode-set buffers and the three
    /// spacer literals: spacers are appended to sets one to three, the
    /// fourth set carries none. Fails exactly when some set's sequences do
    /// not share one length.
    pub fn from_buffers(
        b1: &[u8],
        b2: &[u8],
        b3: &[u8],
        b4: &[u8],
        s1: &str,
        s2: &str,
        s3: &str,
        exact: bool,
        linkers: bool,
    ) -> (r: Result<Config, BarcodeError>)
        ensures
            ({
                let q1 = barcode_seqs(b1@, s1.spec_bytes());
                let q2 = barcode_seqs(b2@, s2.spec_bytes());
                let q3 = barcode_seqs(b3@, s3.spec_bytes());
                let q4 = barcode_seqs(b4@, Seq::empty());
                match r {
                    Ok(c) => {
                        &&& c.wf()
                        &&& c.spec_linkers() == linkers
                        &&& parse_result_ok(b1@, s1.spec_bytes(), exact, Ok(c.spec_set(0)))
                        &&& parse_result_ok(b2@, s2.spec_bytes(), exact, Ok(c.spec_set(1)))
                        &&& parse_result_ok(b3@, s3.spec_bytes(), exact, Ok(c.spec_set(2)))
                        &&& parse_result_ok(b4@, Seq::empty(), exact, Ok(c.spec_set(3)))
                    },
                    Err(e) => {
                        &&& !uniform_len(q1) || !uniform_len(q2) || !uniform_len(q3)
                            || !uniform_len(q4)
                        &&& e == BarcodeError::LengthVariance
                    },
                }
            }),
    {
        let spacer1 = Spacer::from_str(s1);
        let spacer2 = Spacer::from_str(s2);
        let spacer3 = Spacer::from_str(s3);
        let bc1 = match Barcodes::from_buffer_with_spacer(b1, &spacer1, exact) {
            Ok(b) => b,
            Err(e) => {
                return Err(e);
            },
        };
        let bc2 = match Barcodes::from_buffer_with_spacer(b2, &spacer2, exact) {
            Ok(b) => b,
            Err(e) => {
                return Err(e);
            },
        };
        let bc3 = match Barcodes::from_buffer_with_spacer(b3, &spacer3, exact) {
            Ok(b) => b,
            Err(e) => {
                return Err(e);
            },
        };
        let bc4 = match Barcodes::from_buffer(b4, exact) {
            Ok(b) => b,
            Err(e) => {
                return Err(e);
            },
        };
        Ok(Config { bc1, bc2, bc3, bc4, linkers })
    }

    /// The fixed sequence length of stage `set_idx`'s dictionary.
    pub fn set_len(&self, set_idx: usize) -> (r: usize)
        requires
            set_idx < 4,
        ensures
            r == self.spec_set(set_idx as int).spec_len(),
    {
        if set_idx == 0 {
            self.bc1.len()
        } else if set_idx == 1 {
            self.bc2.len()
        } else if set_idx == 2 {
            self.bc3.len()
        } else {
            self.bc4.len()
        }
    }

    /// Matches a window of the sequence against the dictionary of stage
    /// `set_idx`, starting at `pos`. The window is one dictionary length
    /// wide, plus `offset` when given; a reported end position is relative
    /// to `pos`.
    pub fn match_subsequence(
        &self,
        seq: &[u8],
        set_idx: usize,
        pos: usize,
        offset: Option<usize>,
    ) -> (r: Option<(usize, usize)>)
        requires
            set_idx < 4,
            pos + self.spec_set(set_idx as int).spec_len() + (match offset {
                Some(o) => o as int,
                None => 0,
            }) <= usize::MAX,
        ensures
            ({
                let bc = self.spec_set(set_idx as int);
                let off = match offset {
                    Some(o) => o as int,
                    None => 0,
                };
                submatch_result_ok(
                    bc.lookup(),
                    seq@,
                    bc.spec_len(),
                    pos as int,
                    pos + bc.spec_len() + off,
                    r,
                )
            }),
    {
        let bc = if set_idx == 0 {
            &self.bc1
        } else if set_idx == 1 {
            &self.bc2
        } else if set_idx == 2 {
            &self.bc3
        } else {
            &self.bc4
        };
        let end = match offset {
            Some(off) => pos + bc.len() + off,
            None => pos + bc.len(),
        };
        bc.match_subsequence(seq, pos, end)
    }

    /// The corrected output sequence for four matched indices: the canonical
    /// sequences concatenated in stage order, each with its spacer kept or
    /// stripped as the configuration asks.
    pub fn build_barcode(&self, b1_idx: usize, b2_idx: usize, b3_idx: usize, b4_idx: usize) -> (r:
        Vec<u8>)
        requires
            self.wf(),
            b1_idx < self.spec_set(0).seqs().len(),
            b2_idx < self.spec_set(1).seqs().len(),
            b3_idx < self.spec_set(2).seqs().len(),
            b4_idx < self.spec_set(3).seqs().len(),
        ensures
            r@ == self.spec_set(0).emitted(b1_idx as int, self.spec_linkers()) + self.spec_set(
                1,
            ).emitted(b2_idx as int, self.spec_linkers()) + self.spec_set(2).emitted(
                b3_idx as int,
                self.spec_linkers(),
            ) + self.spec_set(3).emitted(b4_idx as int, self.spec_linkers()),
    {
        let mut bc = self.bc1.emit_barcode(b1_idx, self.linkers);
        let part2 = self.bc2.emit_barcode(b2_idx, self.linkers);
        let part3 = self.bc3.emit_barcode(b3_idx, self.linkers);
        let part4 = self.bc4.emit_barcode(b4_idx, self.linkers);
        push_all(&mut bc, part2.as_slice());
        push_all(&mut bc, part3.as_slice());
        push_all(&mut bc, part4.as_slice());
        bc
    }
}

} // verus!
