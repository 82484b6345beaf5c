//! The library's laws: what the lookup table of each mode contains, and how
//! the statistics of a whole run balance.

use vstd::prelude::*;
use vstd::seq_lib::*;

use crate::log::{balanced, empty_stats, StatsModel};
use crate::pipeline::{run_outcomes, ReadOutcome};
use crate::seqspec::{
    derives_from, first_index, hamming, has_unambiguous_parent, is_nucleotide,
    lemma_unambiguous_parent_unique, lookup_table, seq_contains, the_parent, unambiguous_parent,
};

verus! {

/// A sequence equals itself everywhere.
proof fn lemma_hamming_self(s: Seq<u8>)
    ensures
        hamming(s, s) == 0,
    decreases s.len(),
{
    if s.len() > 0 {
        lemma_hamming_self(s.drop_last());
    }
}

/// Substituting one position puts a sequence at Hamming distance exactly one
/// from the original.
proof fn lemma_hamming_update(c: Seq<u8>, p: int, x: u8)
    requires
        0 <= p < c.len(),
        x != c[p],
    ensures
        hamming(c.update(p, x), c) == 1,
    decreases c.len(),
{
    let v = c.update(p, x);
    if p == c.len() - 1 {
        assert(v.drop_last() =~= c.drop_last());
        lemma_hamming_self(c.drop_last());
    } else {
        assert(v.drop_last() =~= c.drop_last().update(p, x));
        assert(v.last() == c.last());
        lemma_hamming_update(c.drop_last(), p, x);
    }
}

/// A single-nucleotide substitution variant sits at Hamming distance exactly
/// one from its parent.
pub proof fn lemma_derives_hamming(v: Seq<u8>, c: Seq<u8>)
    requires
        derives_from(v, c),
    ensures
        v.len() == c.len(),
        hamming(v, c) == 1,
{
    let (p, x): (int, u8) = choose|p: int, x: u8|
        0 <= p < c.len() && is_nucleotide(x) && x != c[p] && v == c.update(p, x);
    lemma_hamming_update(c, p, x);
}

/// Exact mode: the lookup table holds a sequence exactly when it is
/// canonical, and then it maps to the first index of that sequence. In
/// particular a variant that is not itself canonical never matches.
pub proof fn lemma_exact_mode(seqs: Seq<Seq<u8>>, v: Seq<u8>)
    ensures
        lookup_table(seqs, true).contains_key(v) <==> seq_contains(seqs, v),
        seq_contains(seqs, v) ==> lookup_table(seqs, true)[v] == first_index(seqs, v) as usize,
{
}

/// Fuzzy mode: a non-canonical variant whose only deriving canonical is `c`
/// maps to `c`'s first index.
pub proof fn lemma_fuzzy_unambiguous(seqs: Seq<Seq<u8>>, v: Seq<u8>, c: Seq<u8>)
    requires
        !seq_contains(seqs, v),
        unambiguous_parent(seqs, v, c),
    ensures
        lookup_table(seqs, false).contains_key(v),
        lookup_table(seqs, false)[v] == first_index(seqs, c) as usize,
{
    lemma_unambiguous_parent_unique(seqs, v, the_parent(seqs, v), c);
}

/// Fuzzy mode: a non-canonical variant deriving from two distinct canonical
/// sequences never matches.
pub proof fn lemma_fuzzy_ambiguous(seqs: Seq<Seq<u8>>, v: Seq<u8>, c1: Seq<u8>, c2: Seq<u8>)
    requires
        !seq_contains(seqs, v),
        c1 != c2,
        seq_contains(seqs, c1),
        seq_contains(seqs, c2),
        derives_from(v, c1),
        derives_from(v, c2),
    ensures
        !lookup_table(seqs, false).contains_key(v),
{
    if has_unambiguous_parent(seqs, v) {
        let c = the_parent(seqs, v);
        assert(unambiguous_parent(seqs, v, c));
        assert(c1 == c);
        assert(c2 == c);
    }
}

/// Fuzzy mode: a non-canonical sequence at Hamming distance other than one
/// from every canonical sequence — a double substitution, for instance —
/// never matches.
pub proof fn lemma_fuzzy_no_near_match(seqs: Seq<Seq<u8>>, v: Seq<u8>)
    requires
        !seq_contains(seqs, v),
        forall|c: Seq<u8>| #[trigger] seq_contains(seqs, c) ==> hamming(v, c) != 1,
    ensures
        !lookup_table(seqs, false).contains_key(v),
{
    if has_unambiguous_parent(seqs, v) {
        let c = the_parent(seqs, v);
        assert(unambiguous_parent(seqs, v, c));
        lemma_derives_hamming(v, c);
    }
}

/// At Hamming distance zero two equal-length sequences agree everywhere.
proof fn lemma_hamming_zero(a: Seq<u8>, b: Seq<u8>)
    requires
        a.len() == b.len(),
        hamming(a, b) == 0,
    ensures
        forall|i: int| 0 <= i < a.len() ==> a[i] == b[i],
    decreases a.len(),
{
    if a.len() > 0 {
        lemma_hamming_zero(a.drop_last(), b.drop_last());
        assert forall|i: int| 0 <= i < a.len() implies a[i] == b[i] by {
            if i < a.len() - 1 {
                assert(a.drop_last()[i] == b.drop_last()[i]);
            }
        }
    }
}

/// At Hamming distance one there is exactly one differing position.
proof fn lemma_hamming_one_diff(v: Seq<u8>, c: Seq<u8>)
    requires
        v.len() == c.len(),
        hamming(v, c) == 1,
    ensures
        exists|p: int|
            0 <= p < v.len() && #[trigger] v[p] != c[p] && (forall|q: int|
                0 <= q < v.len() && q != p ==> v[q] == c[q]),
    decreases v.len(),
{
    if v.last() == c.last() {
        lemma_hamming_one_diff(v.drop_last(), c.drop_last());
        let p = choose|p: int|
            0 <= p < v.len() - 1 && #[trigger] v.drop_last()[p] != c.drop_last()[p] && (forall|
                q: int,
            |
                0 <= q < v.len() - 1 && q != p ==> v.drop_last()[q] == c.drop_last()[q]);
        assert(v[p] != c[p]);
        assert forall|q: int| 0 <= q < v.len() && q != p implies v[q] == c[q] by {
            if q < v.len() - 1 {
                assert(v.drop_last()[q] == c.drop_last()[q]);
            }
        }
    } else {
        let p = v.len() - 1;
        lemma_hamming_zero(v.drop_last(), c.drop_last());
        assert forall|q: int| 0 <= q < v.len() && q != p implies v[q] == c[q] by {
            assert(v.drop_last()[q] == c.drop_last()[q]);
        }
        assert(v[p] != c[p]);
    }
}

/// Over the nucleotide alphabet, sitting at Hamming distance one from a
/// sequence is the same as deriving from it by one substitution.
pub proof fn lemma_hamming_one_derives(v: Seq<u8>, c: Seq<u8>)
    requires
        v.len() == c.len(),
        hamming(v, c) == 1,
        forall|i: int| 0 <= i < v.len() ==> is_nucleotide(#[trigger] v[i]),
    ensures
        derives_from(v, c),
{
    lemma_hamming_one_diff(v, c);
    let p = choose|p: int|
        0 <= p < v.len() && #[trigger] v[p] != c[p] && (forall|q: int|
            0 <= q < v.len() && q != p ==> v[q] == c[q]);
    assert(v =~= c.update(p, v[p]));
}

/// Fuzzy mode, in Hamming terms: a nucleotide sequence that is not canonical
/// and sits at Hamming distance one from exactly one canonical sequence maps
/// to that sequence's first index.
pub proof fn lemma_fuzzy_hamming_one(seqs: Seq<Seq<u8>>, v: Seq<u8>, c: Seq<u8>)
    requires
        !seq_contains(seqs, v),
        forall|i: int| 0 <= i < v.len() ==> is_nucleotide(#[trigger] v[i]),
        seq_contains(seqs, c),
        v.len() == c.len(),
        hamming(v, c) == 1,
        forall|c2: Seq<u8>| #[trigger]
            seq_contains(seqs, c2) && c2 != c ==> !(c2.len() == v.len() && hamming(v, c2) == 1),
    ensures
        lookup_table(seqs, false).contains_key(v),
        lookup_table(seqs, false)[v] == first_index(seqs, c) as usize,
{
    lemma_hamming_one_derives(v, c);
    assert forall|c2: Seq<u8>| seq_contains(seqs, c2) && derives_from(v, c2) implies c2 == c by {
        lemma_derives_hamming(v, c2);
    }
    lemma_fuzzy_unambiguous(seqs, v, c);
}

/// Fuzzy mode, in Hamming terms: a non-canonical sequence at Hamming distance
/// one from two distinct canonical sequences never matches.
pub proof fn lemma_fuzzy_hamming_ambiguous(seqs: Seq<Seq<u8>>, v: Seq<u8>, c1: Seq<u8>, c2: Seq<u8>)
    requires
        !seq_contains(seqs, v),
        forall|i: int| 0 <= i < v.len() ==> is_nucleotide(#[trigger] v[i]),
        c1 != c2,
        seq_contains(seqs, c1),
        seq_contains(seqs, c2),
        v.len() == c1.len(),
        v.len() == c2.len(),
        hamming(v, c1) == 1,
        hamming(v, c2) == 1,
    ensures
        !lookup_table(seqs, false).contains_key(v),
{
    lemma_hamming_one_derives(v, c1);
    lemma_hamming_one_derives(v, c2);
    lemma_fuzzy_ambiguous(seqs, v, c1, c2);
}

/// The reconstructed sequences of the accepted outcomes, in order.
pub open spec fn accepted_constructs(outs: Seq<ReadOutcome>) -> Seq<Seq<u8>>
    decreases outs.len(),
{
    if outs.len() == 0 {
        Seq::empty()
    } else {
        accepted_constructs(outs.drop_last()) + (match outs.last() {
            ReadOutcome::Accepted { seq: s, qual: _ } => seq![s@],
            _ => Seq::empty(),
        })
    }
}

/// How many outcomes passed all four stages.
pub open spec fn count_passing(outs: Seq<ReadOutcome>) -> nat
    decreases outs.len(),
{
    if outs.len() == 0 {
        0
    } else {
        count_passing(outs.drop_last()) + (match outs.last() {
            ReadOutcome::Accepted { seq: _, qual: _ } => 1nat,
            ReadOutcome::TooShort => 1nat,
            _ => 0nat,
        })
    }
}

/// Law: the books always balance. After any run of outcomes the total read
/// count equals the passing reads plus the four per-stage filter counts, and
/// the total grows by exactly the number of reads seen.
pub proof fn lemma_run_balanced(m: StatsModel, outs: Seq<ReadOutcome>)
    requires
        balanced(m),
    ensures
        balanced(run_outcomes(m, outs)),
        run_outcomes(m, outs).total == m.total + outs.len(),
    decreases outs.len(),
{
    if outs.len() > 0 {
        lemma_run_balanced(m, outs.drop_last());
    }
}

/// Law: a run's whitelist is the starting whitelist joined with the set of
/// reconstructed sequences of its accepted reads, and the passing count grows
/// by exactly the number of reads that passed all four stages.
pub proof fn lemma_run_whitelist(m: StatsModel, outs: Seq<ReadOutcome>)
    ensures
        run_outcomes(m, outs).whitelist =~= m.whitelist.union(accepted_constructs(outs).to_set()),
        run_outcomes(m, outs).passing == m.passing + count_passing(outs),
    decreases outs.len(),
{
    if outs.len() == 0 {
        assert(accepted_constructs(outs).to_set() =~= Set::<Seq<u8>>::empty());
    } else {
        let rest = outs.drop_last();
        lemma_run_whitelist(m, rest);
        match outs.last() {
            ReadOutcome::Accepted { seq: s, qual: _ } => {
                assert forall|a: Seq<u8>|
                    accepted_constructs(outs).to_set().contains(a) <==> (accepted_constructs(
                        rest,
                    ).to_set().contains(a) || a == s@) by {
                    let cs = accepted_constructs(rest);
                    assert(accepted_constructs(outs) == cs + seq![s@]);
                    if accepted_constructs(outs).contains(a) {
                        let i = choose|i: int|
                            0 <= i < accepted_constructs(outs).len() && accepted_constructs(
                                outs,
                            )[i] == a;
                        if i < cs.len() {
                            assert(cs[i] == a);
                        }
                    }
                    if cs.contains(a) {
                        let i = choose|i: int| 0 <= i < cs.len() && cs[i] == a;
                        assert(accepted_constructs(outs)[i] == a);
                    }
                    if a == s@ {
                        assert(accepted_constructs(outs)[cs.len() as int] == a);
                    }
                }
            },
            _ => {
                assert(accepted_constructs(outs) =~= accepted_constructs(rest));
            },
        }
    }
}

/// Law: starting from fresh statistics, the whitelist is exactly the set of
/// distinct reconstructed sequences among the passing reads, and its size
/// never exceeds the passing count.
pub proof fn lemma_whitelist_counts_distinct(outs: Seq<ReadOutcome>)
    ensures
        run_outcomes(empty_stats(), outs).whitelist =~= accepted_constructs(outs).to_set(),
        run_outcomes(empty_stats(), outs).whitelist.len() <= run_outcomes(
            empty_stats(),
            outs,
        ).passing,
{
    lemma_run_whitelist(empty_stats(), outs);
    assert(Set::<Seq<u8>>::empty().union(accepted_constructs(outs).to_set())
        =~= accepted_constructs(outs).to_set());
    accepted_constructs(outs).lemma_cardinality_of_set();
    lemma_accepted_le_passing(outs);
}

proof fn lemma_accepted_le_passing(outs: Seq<ReadOutcome>)
    ensures
        accepted_constructs(outs).len() <= count_passing(outs),
    decreases outs.len(),
{
    if outs.len() > 0 {
        lemma_accepted_le_passing(outs.drop_last());
    }
}

} // verus!
