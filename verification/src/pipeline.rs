//! The four-stage matching pipeline: one read pair is driven through four
//! sequential dictionary matches, the UMI is extracted, the corrected output
//! record is reconstructed and the run statistics are updated.

use vstd::prelude::*;
use vstd::slice::{slice_subrange, slice_to_vec};

use crate::config::Config;
use crate::log::{StatsModel, Statistics};
use crate::seqops::{copy_bytes, push_all};
use crate::seqspec::submatch_result_ok;

verus! {

/// What became of one read pair: filtered at one of the four stages, accepted
/// with a reconstructed record, or cut off before the UMI.
pub enum ReadOutcome {
    Filtered1,
    Filtered2,
    Filtered3,
    Filtered4,
    /// All four stages matched but the read ends before the UMI. Upstream
    /// read-length validation should have excluded such a read; the run
    /// treats this as fatal.
    TooShort,
    /// The read passed all four stages: the reconstructed sequence and the
    /// matching slice of the original quality string.
    Accepted { seq: Vec<u8>, qual: Vec<u8> },
}

/// The window that stage `k` searches: one dictionary length wide, widened by
/// the configured offset at stage one only.
pub open spec fn stage_window_ok(
    cfg: Config,
    hay: Seq<u8>,
    offset: int,
    k: int,
    start: int,
    r: Option<(usize, usize)>,
) -> bool {
    let bc = cfg.spec_set(k);
    let off: int = if k == 0 {
        offset
    } else {
        0
    };
    submatch_result_ok(bc.lookup(), hay, bc.spec_len(), start, start + bc.spec_len() + off, r)
}

/// The reconstructed output sequence for four matched indices, before the
/// UMI is appended.
pub open spec fn construct_of(cfg: Config, i1: usize, i2: usize, i3: usize, i4: usize) -> Seq<u8> {
    cfg.spec_set(0).emitted(i1 as int, cfg.spec_linkers()) + cfg.spec_set(1).emitted(
        i2 as int,
        cfg.spec_linkers(),
    ) + cfg.spec_set(2).emitted(i3 as int, cfg.spec_linkers()) + cfg.spec_set(3).emitted(
        i4 as int,
        cfg.spec_linkers(),
    )
}

/// Exact description of one pipeline pass over a read: which outcome is
/// right for the given read, configuration, stage-one offset and UMI length.
pub open spec fn outcome_ok(
    cfg: Config,
    seq: Seq<u8>,
    qual: Seq<u8>,
    offset: int,
    umi_len: int,
    out: ReadOutcome,
) -> bool {
    match out {
        ReadOutcome::Filtered1 => stage_window_ok(cfg, seq, offset, 0, 0, None),
        ReadOutcome::Filtered2 => exists|e1: usize, i1: usize|
            #[trigger] stage_window_ok(cfg, seq, offset, 0, 0, Some((e1, i1)))
                && stage_window_ok(cfg, seq, offset, 1, e1 as int, None),
        ReadOutcome::Filtered3 => exists|e1: usize, i1: usize, e2: usize, i2: usize|
            #[trigger] stage_window_ok(cfg, seq, offset, 0, 0, Some((e1, i1)))
                && #[trigger] stage_window_ok(cfg, seq, offset, 1, e1 as int, Some((e2, i2)))
                && stage_window_ok(cfg, seq, offset, 2, e1 + e2, None),
        ReadOutcome::Filtered4 => exists|
            e1: usize,
            i1: usize,
            e2: usize,
            i2: usize,
            e3: usize,
            i3: usize,
        |
            #[trigger] stage_window_ok(cfg, seq, offset, 0, 0, Some((e1, i1)))
                && #[trigger] stage_window_ok(cfg, seq, offset, 1, e1 as int, Some((e2, i2)))
                && #[trigger] stage_window_ok(cfg, seq, offset, 2, e1 + e2, Some((e3, i3)))
                && stage_window_ok(cfg, seq, offset, 3, e1 + e2 + e3, None),
        ReadOutcome::TooShort => exists|
            e1: usize,
            i1: usize,
            e2: usize,
            i2: usize,
            e3: usize,
            i3: usize,
            e4: usize,
            i4: usize,
        |
            #[trigger] stage_window_ok(cfg, seq, offset, 0, 0, Some((e1, i1)))
                && #[trigger] stage_window_ok(cfg, seq, offset, 1, e1 as int, Some((e2, i2)))
                && #[trigger] stage_window_ok(cfg, seq, offset, 2, e1 + e2, Some((e3, i3)))
                && #[trigger] stage_window_ok(cfg, seq, offset, 3, e1 + e2 + e3, Some((e4, i4)))
                && e1 + e2 + e3 + e4 + umi_len > seq.len(),
        ReadOutcome::Accepted { seq: cseq, qual: cqual } => exists|
            e1: usize,
            i1: usize,
            e2: usize,
            i2: usize,
            e3: usize,
            i3: usize,
            e4: usize,
            i4: usize,
        |
            {
                let end = e1 + e2 + e3 + e4 + umi_len;
                &&& #[trigger] stage_window_ok(cfg, seq, offset, 0, 0, Some((e1, i1)))
                &&& #[trigger] stage_window_ok(cfg, seq, offset, 1, e1 as int, Some((e2, i2)))
                &&& #[trigger] stage_window_ok(cfg, seq, offset, 2, e1 + e2, Some((e3, i3)))
                &&& #[trigger] stage_window_ok(cfg, seq, offset, 3, e1 + e2 + e3, Some((e4, i4)))
                &&& end <= seq.len()
                &&& cseq@ == construct_of(cfg, i1, i2, i3, i4) + seq.subrange(
                    e1 + e2 + e3 + e4,
                    end,
                )
                &&& cseq@.len() <= end
                &&& cqual@ == qual.subrange(end - cseq@.len(), end)
            },
    }
}

/// How one outcome moves the statistics: the total always steps by one,
/// exactly one of the other counters steps with it, and an accepted read's
/// reconstructed sequence joins the whitelist.
pub open spec fn apply_outcome(m: StatsModel, out: ReadOutcome) -> StatsModel {
    match out {
        ReadOutcome::Filtered1 => StatsModel { total: m.total + 1, f1: m.f1 + 1, ..m },
        ReadOutcome::Filtered2 => StatsModel { total: m.total + 1, f2: m.f2 + 1, ..m },
        ReadOutcome::Filtered3 => StatsModel { total: m.total + 1, f3: m.f3 + 1, ..m },
        ReadOutcome::Filtered4 => StatsModel { total: m.total + 1, f4: m.f4 + 1, ..m },
        ReadOutcome::TooShort => StatsModel { total: m.total + 1, passing: m.passing + 1, ..m },
        ReadOutcome::Accepted { seq: cseq, qual: _ } => StatsModel {
            total: m.total + 1,
            passing: m.passing + 1,
            whitelist: m.whitelist.insert(cseq@),
            ..m
        },
    }
}

/// The statistics after a whole run of outcomes.
pub open spec fn run_outcomes(m: StatsModel, outs: Seq<ReadOutcome>) -> StatsModel
    decreases outs.len(),
{
    if outs.len() == 0 {
        m
    } else {
        apply_outcome(run_outcomes(m, outs.drop_last()), outs.last())
    }
}

/// Drives one read through the four matching stages. On success the UMI is
/// the next `umi_len` bytes after the fourth match, the output sequence is
/// the corrected concatenation plus the UMI, and the quality slice covers
/// the matched region; the statistics step by exactly one outcome.
pub fn process_read(
    config: &Config,
    stats: &mut Statistics,
    r1_seq: &[u8],
    r1_qual: &[u8],
    offset: usize,
    umi_len: usize,
) -> (out: ReadOutcome)
    requires
        config.wf(),
        old(stats).inv(),
        old(stats).total_reads < usize::MAX,
        r1_qual@.len() == r1_seq@.len(),
        config.spec_set(0).spec_len() + offset <= usize::MAX,
        r1_seq@.len() + config.spec_set(1).spec_len() <= usize::MAX,
        r1_seq@.len() + config.spec_set(2).spec_len() <= usize::MAX,
        r1_seq@.len() + config.spec_set(3).spec_len() <= usize::MAX,
        r1_seq@.len() + umi_len <= usize::MAX,
    ensures
        outcome_ok(*config, r1_seq@, r1_qual@, offset as int, umi_len as int, out),
        final (stats).model() == apply_outcome(old(stats).model(), out),
        final (stats).whitelist_size == old(stats).whitelist_size,
        final (stats).inv(),
{
    stats.total_reads = stats.total_reads + 1;
    let st1 = config.match_subsequence(r1_seq, 0, 0, Some(offset));
    let (pos1, i1) = match st1 {
        Some(p) => p,
        None => {
            stats.num_filtered_1 = stats.num_filtered_1 + 1;
            return ReadOutcome::Filtered1;
        },
    };
    let st2 = config.match_subsequence(r1_seq, 1, pos1, None);
    let (rel2, i2) = match st2 {
        Some(p) => p,
        None => {
            stats.num_filtered_2 = stats.num_filtered_2 + 1;
            proof {
                assert(stage_window_ok(*config, r1_seq@, offset as int, 0, 0, Some((pos1, i1))));
                assert(stage_window_ok(*config, r1_seq@, offset as int, 1, pos1 as int, None));
            }
            return ReadOutcome::Filtered2;
        },
    };
    let pos2 = pos1 + rel2;
    let st3 = config.match_subsequence(r1_seq, 2, pos2, None);
    let (rel3, i3) = match st3 {
        Some(p) => p,
        None => {
            stats.num_filtered_3 = stats.num_filtered_3 + 1;
            proof {
                assert(stage_window_ok(*config, r1_seq@, offset as int, 0, 0, Some((pos1, i1))));
                assert(stage_window_ok(
                    *config,
                    r1_seq@,
                    offset as int,
                    1,
                    pos1 as int,
                    Some((rel2, i2)),
                ));
                assert(stage_window_ok(*config, r1_seq@, offset as int, 2, pos1 + rel2, None));
            }
            return ReadOutcome::Filtered3;
        },
    };
    let pos3 = pos2 + rel3;
    let st4 = config.match_subsequence(r1_seq, 3, pos3, None);
    let (rel4, i4) = match st4 {
        Some(p) => p,
        None => {
            stats.num_filtered_4 = stats.num_filtered_4 + 1;
            proof {
                assert(stage_window_ok(*config, r1_seq@, offset as int, 0, 0, Some((pos1, i1))));
                assert(stage_window_ok(
                    *config,
                    r1_seq@,
                    offset as int,
                    1,
                    pos1 as int,
                    Some((rel2, i2)),
                ));
                assert(stage_window_ok(
                    *config,
                    r1_seq@,
                    offset as int,
                    2,
                    pos1 + rel2,
                    Some((rel3, i3)),
                ));
                assert(stage_window_ok(
                    *config,
                    r1_seq@,
                    offset as int,
                    3,
                    pos1 + rel2 + rel3,
                    None,
                ));
            }
            return ReadOutcome::Filtered4;
        },
    };
    let pos4 = pos3 + rel4;
    stats.passing_reads = stats.passing_reads + 1;
    proof {
        assert(stage_window_ok(*config, r1_seq@, offset as int, 0, 0, Some((pos1, i1))));
        assert(stage_window_ok(*config, r1_seq@, offset as int, 1, pos1 as int, Some((rel2, i2))));
        assert(stage_window_ok(*config, r1_seq@, offset as int, 2, pos1 + rel2, Some((rel3, i3))));
        assert(stage_window_ok(
            *config,
            r1_seq@,
            offset as int,
            3,
            pos1 + rel2 + rel3,
            Some((rel4, i4)),
        ));
    }
    if umi_len > r1_seq.len() - pos4 {
        return ReadOutcome::TooShort;
    }
    let end = pos4 + umi_len;
    let umi = slice_subrange(r1_seq, pos4, end);
    proof {
        lemma_stage_index_bound(*config, r1_seq@, offset as int, 0, 0, pos1, i1);
        lemma_stage_index_bound(*config, r1_seq@, offset as int, 1, pos1 as int, rel2, i2);
        lemma_stage_index_bound(*config, r1_seq@, offset as int, 2, pos1 + rel2, rel3, i3);
        lemma_stage_index_bound(*config, r1_seq@, offset as int, 3, pos1 + rel2 + rel3, rel4, i4);
    }
    let mut cseq = config.build_barcode(i1, i2, i3, i4);
    push_all(&mut cseq, umi);
    proof {
        lemma_emitted_len(*config, 0, i1 as int);
        lemma_emitted_len(*config, 1, i2 as int);
        lemma_emitted_len(*config, 2, i3 as int);
        lemma_emitted_len(*config, 3, i4 as int);
    }
    let cqual = slice_to_vec(slice_subrange(r1_qual, end - cseq.len(), end));
    let key = copy_bytes(&cseq);
    let _ = stats.whitelist.insert(key);
    ReadOutcome::Accepted { seq: cseq, qual: cqual }
}

/// What a stage contributes to the output is never longer than the stage's
/// fixed sequence length.
proof fn lemma_emitted_len(cfg: Config, k: int, i: int)
    requires
        cfg.wf(),
        0 <= k < 4,
        0 <= i < cfg.spec_set(k).seqs().len(),
    ensures
        cfg.spec_set(k).emitted(i, cfg.spec_linkers()).len() <= cfg.spec_set(k).spec_len(),
{
    let bc = cfg.spec_set(k);
    assert(bc.wf());
    assert(bc.seqs()[i].len() == bc.spec_len());
}

/// A matched index is always in range of the stage's canonical list.
proof fn lemma_stage_index_bound(
    cfg: Config,
    hay: Seq<u8>,
    offset: int,
    k: int,
    start: int,
    e: usize,
    i: usize,
)
    requires
        cfg.wf(),
        0 <= k < 4,
        stage_window_ok(cfg, hay, offset, k, start, Some((e, i))),
    ensures
        i < cfg.spec_set(k).seqs().len(),
{
    let bc = cfg.spec_set(k);
    assert(bc.wf());
    let off: int = if k == 0 {
        offset
    } else {
        0
    };
    let region = hay.subrange(start, start + bc.spec_len() + off);
    let key = region.subrange(e - bc.spec_len(), e as int);
    assert(bc.lookup().contains_key(key));
}

/// A record in four-line text form, as it is written out.
pub open spec fn fastq_record_spec(id: Seq<u8>, seq: Seq<u8>, qual: Seq<u8>) -> Seq<u8> {
    seq![64u8] + id + seq![10u8] + seq + seq![10u8, 43u8, 10u8] + qual + seq![10u8]
}

/// Renders one record in four-line text form: marker line with the
/// identifier, sequence, separator, quality.
pub fn fastq_record(id: &[u8], seq: &[u8], qual: &[u8]) -> (r: Vec<u8>)
    ensures
        r@ == fastq_record_spec(id@, seq@, qual@),
{
    let mut out: Vec<u8> = Vec::new();
    out.push(64);
    push_all(&mut out, id);
    out.push(10);
    push_all(&mut out, seq);
    out.push(10);
    out.push(43);
    out.push(10);
    push_all(&mut out, qual);
    out.push(10);
    proof {
        assert(out@ =~= fastq_record_spec(id@, seq@, qual@));
    }
    out
}

} // verus!
