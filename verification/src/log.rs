//! Run statistics: read counters, the whitelist of distinct reconstructed
//! sequences, and the plain data carried into the run summary.

use vstd::prelude::*;

use crate::bytemap::{byte_set_model, ByteSet};
use crate::seqspec::views;

verus! {

/// Counters and whitelist accumulated over one run. The passing fraction is
/// a derived floating-point metric and is computed where the summary is
/// written.
#[derive(Debug)]
pub struct Statistics {
    pub total_reads: usize,
    pub passing_reads: usize,
    pub whitelist_size: usize,
    pub num_filtered_1: usize,
    pub num_filtered_2: usize,
    pub num_filtered_3: usize,
    pub num_filtered_4: usize,
    pub whitelist: ByteSet,
}

/// The mathematical state of the statistics: the counters and the set of
/// reconstructed sequences.
pub struct StatsModel {
    pub total: nat,
    pub passing: nat,
    pub f1: nat,
    pub f2: nat,
    pub f3: nat,
    pub f4: nat,
    pub whitelist: Set<Seq<u8>>,
}

/// The state of a fresh statistics record.
pub open spec fn empty_stats() -> StatsModel {
    StatsModel {
        total: 0,
        passing: 0,
        f1: 0,
        f2: 0,
        f3: 0,
        f4: 0,
        whitelist: Set::empty(),
    }
}

/// Every read is accounted for exactly once: the total equals the passing
/// reads plus the four per-stage filter counts.
pub open spec fn balanced(m: StatsModel) -> bool {
    m.total == m.passing + m.f1 + m.f2 + m.f3 + m.f4
}

impl Statistics {
    pub open spec fn model(&self) -> StatsModel {
        StatsModel {
            total: self.total_reads as nat,
            passing: self.passing_reads as nat,
            f1: self.num_filtered_1 as nat,
            f2: self.num_filtered_2 as nat,
            f3: self.num_filtered_3 as nat,
            f4: self.num_filtered_4 as nat,
            whitelist: byte_set_model(self.whitelist),
        }
    }

    /// The statistics invariant: counters balance and the whitelist, a set of
    /// sequences drawn one from each passing read, is no larger than the
    /// passing count.
    pub open spec fn inv(&self) -> bool {
        &&& balanced(self.model())
        &&& byte_set_model(self.whitelist).finite()
        &&& byte_set_model(self.whitelist).len() <= self.passing_reads
    }

    pub fn new() -> (r: Statistics)
        ensures
            r.model() == empty_stats(),
            r.whitelist_size == 0,
            r.inv(),
    {
        Statistics {
            total_reads: 0,
            passing_reads: 0,
            whitelist_size: 0,
            num_filtered_1: 0,
            num_filtered_2: 0,
            num_filtered_3: 0,
            num_filtered_4: 0,
            whitelist: ByteSet::new(),
        }
    }

    /// Captures the derived metrics once the stream is exhausted: the
    /// whitelist size becomes the number of distinct reconstructed
    /// sequences.
    pub fn calculate_metrics(&mut self)
        requires
            old(self).inv(),
        ensures
            final (self).whitelist_size == byte_set_model(old(self).whitelist).len(),
            final (self).model() == old(self).model(),
            final (self).total_reads == old(self).total_reads,
            final (self).passing_reads == old(self).passing_reads,
            final (self).num_filtered_1 == old(self).num_filtered_1,
            final (self).num_filtered_2 == old(self).num_filtered_2,
            final (self).num_filtered_3 == old(self).num_filtered_3,
            final (self).num_filtered_4 == old(self).num_filtered_4,
            final (self).inv(),
    {
        self.whitelist_size = self.whitelist.len();
    }

    /// The whitelist contents, one entry per distinct reconstructed
    /// sequence, in an unspecified order.
    pub fn whitelist_items(&self) -> (r: Vec<Vec<u8>>)
        ensures
            r@.len() == byte_set_model(self.whitelist).len(),
            forall|i: int|
                0 <= i < r@.len() ==> byte_set_model(self.whitelist).contains(r@[i]@),
            forall|i: int, j: int| 0 <= i < j < r@.len() ==> r@[i]@ != r@[j]@,
    {
        self.whitelist.to_vec()
    }
}

/// A list of sequences rendered one per line.
pub open spec fn joined_lines(items: Seq<Seq<u8>>) -> Seq<u8>
    decreases items.len(),
{
    if items.len() == 0 {
        Seq::empty()
    } else {
        joined_lines(items.drop_last()) + items.last() + seq![10u8]
    }
}

/// Renders sequences as newline-terminated lines, as the whitelist file
/// holds them.
pub fn render_lines(items: &Vec<Vec<u8>>) -> (r: Vec<u8>)
    ensures
        r@ == joined_lines(views(items@)),
{
    let mut out: Vec<u8> = Vec::new();
    let mut i: usize = 0;
    proof {
        assert(views(items@).take(0) =~= Seq::<Seq<u8>>::empty());
    }
    while i < items.len()
        invariant
            i <= items@.len(),
            out@ == joined_lines(views(items@).take(i as int)),
        decreases items@.len() - i,
    {
        let ghost before = out@;
        crate::seqops::push_all(&mut out, items[i].as_slice());
        out.push(10);
        proof {
            let vs = views(items@);
            assert(vs.take(i + 1).drop_last() =~= vs.take(i as int));
            assert(vs.take(i + 1).last() == vs[i as int]);
            assert(vs[i as int] == items@[i as int]@);
            assert(out@ =~= before + items@[i as int]@ + seq![10u8]);
        }
        i = i + 1;
    }
    proof {
        assert(views(items@).take(items@.len() as int) =~= views(items@));
    }
    out
}

/// The file paths of one run, as the summary reports them.
pub struct FileIO {
    pub readpath_r1: String,
    pub readpath_r2: String,
    pub writepath_r1: String,
    pub writepath_r2: String,
    pub whitelist_path: String,
}

/// The run parameters, as the summary reports them.
pub struct Parameters {
    pub offset: usize,
    pub umi_len: usize,
    pub exact_matching: bool,
    pub write_linkers: bool,
    pub pipspeak_version: String,
}

} // verus!
