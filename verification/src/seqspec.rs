//! Mathematical model of barcode sequences: Hamming distance,
//! single-substitution variants, whitespace trimming, line splitting, and the
//! mismatch-tolerant lookup table that the dictionary realises.

use vstd::prelude::*;

verus! {

/// The four nucleotide letters `A`, `C`, `G`, `T` as ASCII bytes.
pub open spec fn is_nucleotide(x: u8) -> bool {
    x == 65 || x == 67 || x == 71 || x == 84
}

/// ASCII whitespace as trimmed from the ends of a barcode line.
pub open spec fn is_space(x: u8) -> bool {
    x == 32 || x == 9 || x == 10 || x == 11 || x == 12 || x == 13
}

/// Number of positions at which two equal-length sequences differ.
pub open spec fn hamming(a: Seq<u8>, b: Seq<u8>) -> nat
    recommends
        a.len() == b.len(),
    decreases a.len(),
{
    if a.len() == 0 || b.len() == 0 {
        0
    } else {
        hamming(a.drop_last(), b.drop_last()) + if a.last() == b.last() {
            0nat
        } else {
            1nat
        }
    }
}

/// `v` arises from `c` by substituting exactly one position with a
/// (different) nucleotide letter.
pub open spec fn derives_from(v: Seq<u8>, c: Seq<u8>) -> bool {
    exists|p: int, x: u8|
        0 <= p < c.len() && is_nucleotide(x) && x != c[p] && v == c.update(p, x)
}

/// Membership of a sequence in a list of sequences.
pub open spec fn seq_contains(seqs: Seq<Seq<u8>>, s: Seq<u8>) -> bool {
    exists|i: int| 0 <= i < seqs.len() && seqs[i] == s
}

/// Index of the first occurrence of `s` in `seqs`.
pub open spec fn first_index(seqs: Seq<Seq<u8>>, s: Seq<u8>) -> int
    recommends
        seq_contains(seqs, s),
    decreases seqs.len(),
{
    if seqs.len() == 0 {
        0
    } else if seqs[0] == s {
        0
    } else {
        1 + first_index(seqs.drop_first(), s)
    }
}

/// `c` is the only sequence of `seqs` that `v` derives from.
pub open spec fn unambiguous_parent(seqs: Seq<Seq<u8>>, v: Seq<u8>, c: Seq<u8>) -> bool {
    &&& seq_contains(seqs, c)
    &&& derives_from(v, c)
    &&& forall|c2: Seq<u8>|
        seq_contains(seqs, c2) && derives_from(v, c2) ==> c2 == c
}

pub open spec fn has_unambiguous_parent(seqs: Seq<Seq<u8>>, v: Seq<u8>) -> bool {
    exists|c: Seq<u8>| unambiguous_parent(seqs, v, c)
}

pub open spec fn the_parent(seqs: Seq<Seq<u8>>, v: Seq<u8>) -> Seq<u8> {
    choose|c: Seq<u8>| unambiguous_parent(seqs, v, c)
}

/// The lookup table derived from the canonical sequences `seqs`: every
/// canonical sequence maps to its first index; in fuzzy mode every
/// single-substitution variant that is not itself canonical and has a unique
/// parent maps to that parent's first index.
pub open spec fn lookup_table(seqs: Seq<Seq<u8>>, exact: bool) -> Map<Seq<u8>, usize> {
    Map::new(
        |v: Seq<u8>|
            seq_contains(seqs, v) || (!exact && !seq_contains(seqs, v) && has_unambiguous_parent(
                seqs,
                v,
            )),
        |v: Seq<u8>|
            if seq_contains(seqs, v) {
                first_index(seqs, v) as usize
            } else {
                first_index(seqs, the_parent(seqs, v)) as usize
            },
    )
}

/// All sequences of the list have the same length.
pub open spec fn uniform_len(seqs: Seq<Seq<u8>>) -> bool {
    forall|i: int, j: int|
        0 <= i < seqs.len() && 0 <= j < seqs.len() ==> seqs[i].len() == seqs[j].len()
}

/// Leading whitespace removed.
pub open spec fn trim_front(s: Seq<u8>) -> Seq<u8>
    decreases s.len(),
{
    if s.len() > 0 && is_space(s[0]) {
        trim_front(s.drop_first())
    } else {
        s
    }
}

/// Trailing whitespace removed.
pub open spec fn trim_back(s: Seq<u8>) -> Seq<u8>
    decreases s.len(),
{
    if s.len() > 0 && is_space(s.last()) {
        trim_back(s.drop_last())
    } else {
        s
    }
}

/// Whitespace removed from both ends, as a barcode line is cleaned.
pub open spec fn trimmed(s: Seq<u8>) -> Seq<u8> {
    trim_back(trim_front(s))
}

/// Whether the buffer holds a newline byte.
pub open spec fn has_newline(buf: Seq<u8>) -> bool {
    exists|i: int| 0 <= i < buf.len() && buf[i] == 10
}

/// Index of the first newline byte.
pub open spec fn first_newline(buf: Seq<u8>) -> int
    recommends
        has_newline(buf),
    decreases buf.len(),
{
    if buf.len() == 0 {
        0
    } else if buf[0] == 10 {
        0
    } else {
        1 + first_newline(buf.drop_first())
    }
}

pub proof fn lemma_first_newline(buf: Seq<u8>)
    requires
        has_newline(buf),
    ensures
        0 <= first_newline(buf) < buf.len(),
        buf[first_newline(buf)] == 10,
        forall|j: int| 0 <= j < first_newline(buf) ==> buf[j] != 10,
    decreases buf.len(),
{
    if buf.len() > 0 && buf[0] != 10 {
        assert(has_newline(buf.drop_first())) by {
            let i = choose|i: int| 0 <= i < buf.len() && buf[i] == 10;
            assert(buf.drop_first()[i - 1] == 10);
        }
        lemma_first_newline(buf.drop_first());
        assert forall|j: int| 0 <= j < first_newline(buf) implies buf[j] != 10 by {
            if j > 0 {
                assert(buf.drop_first()[j - 1] != 10);
            }
        }
    }
}

/// The lines of a newline-delimited buffer: one entry per newline-terminated
/// chunk, plus the final chunk if it is not empty.
pub open spec fn split_lines(buf: Seq<u8>) -> Seq<Seq<u8>>
    decreases buf.len() via split_lines_decreases
{
    if buf.len() == 0 {
        Seq::empty()
    } else if !has_newline(buf) {
        seq![buf]
    } else {
        seq![buf.take(first_newline(buf))] + split_lines(buf.skip(first_newline(buf) + 1))
    }
}

#[via_fn]
proof fn split_lines_decreases(buf: Seq<u8>) {
    if buf.len() != 0 && has_newline(buf) {
        lemma_first_newline(buf);
    }
}

/// The canonical sequences read from a raw buffer: each line trimmed and the
/// spacer appended.
pub open spec fn barcode_seqs(buf: Seq<u8>, spacer: Seq<u8>) -> Seq<Seq<u8>> {
    split_lines(buf).map_values(|l: Seq<u8>| trimmed(l) + spacer)
}

/// The views of a vector of byte vectors.
pub open spec fn views(s: Seq<Vec<u8>>) -> Seq<Seq<u8>> {
    s.map_values(|v: Vec<u8>| v@)
}

/// A window of length `l` at position `p` of the haystack is a key of the
/// lookup table.
pub open spec fn match_at(lookup: Map<Seq<u8>, usize>, hay: Seq<u8>, l: nat, p: int) -> bool {
    0 <= p && p + l <= hay.len() && lookup.contains_key(hay.subrange(p, p + l))
}

/// Exact description of the sliding-window matcher: no match means no window
/// of the haystack is a key; a match reports the end of the leftmost window
/// that is a key, with the index stored under it.
pub open spec fn match_result_ok(
    lookup: Map<Seq<u8>, usize>,
    hay: Seq<u8>,
    l: nat,
    r: Option<(usize, usize)>,
) -> bool {
    match r {
        None => forall|p: int| !match_at(lookup, hay, l, p),
        Some(pr) => {
            &&& l <= pr.0 <= hay.len()
            &&& match_at(lookup, hay, l, pr.0 - l)
            &&& pr.1 == lookup[hay.subrange(pr.0 - l, pr.0 as int)]
            &&& forall|q: int| q < pr.0 - l ==> !match_at(lookup, hay, l, q)
        },
    }
}

/// The matcher restricted to `hay[start..end]`: out-of-range or inverted
/// bounds yield no match rather than a failure.
pub open spec fn submatch_result_ok(
    lookup: Map<Seq<u8>, usize>,
    hay: Seq<u8>,
    l: nat,
    start: int,
    end: int,
    r: Option<(usize, usize)>,
) -> bool {
    if start > hay.len() || end > hay.len() || start > end {
        r is None
    } else {
        match_result_ok(lookup, hay.subrange(start, end), l, r)
    }
}

pub proof fn lemma_first_index(seqs: Seq<Seq<u8>>, s: Seq<u8>)
    requires
        seq_contains(seqs, s),
    ensures
        0 <= first_index(seqs, s) < seqs.len(),
        seqs[first_index(seqs, s)] == s,
        forall|j: int| 0 <= j < first_index(seqs, s) ==> seqs[j] != s,
    decreases seqs.len(),
{
    if seqs[0] != s {
        assert(seq_contains(seqs.drop_first(), s)) by {
            let i = choose|i: int| 0 <= i < seqs.len() && seqs[i] == s;
            assert(seqs.drop_first()[i - 1] == s);
        }
        lemma_first_index(seqs.drop_first(), s);
        assert forall|j: int| 0 <= j < first_index(seqs, s) implies seqs[j] != s by {
            if j > 0 {
                assert(seqs.drop_first()[j - 1] != s);
            }
        }
    }
}

/// The first occurrence of the sequence at `i` is `i` itself when nothing
/// before it is equal.
pub proof fn lemma_first_index_at(seqs: Seq<Seq<u8>>, i: int)
    requires
        0 <= i < seqs.len(),
        forall|j: int| 0 <= j < i ==> seqs[j] != seqs[i],
    ensures
        seq_contains(seqs, seqs[i]),
        first_index(seqs, seqs[i]) == i,
    decreases i,
{
    if i > 0 {
        lemma_first_index_at(seqs.drop_first(), i - 1);
        assert(seqs.drop_first()[i - 1] == seqs[i]);
        assert forall|j: int| 0 <= j < i - 1 implies #[trigger] seqs.drop_first()[j]
            != seqs.drop_first()[i - 1] by {
            assert(seqs.drop_first()[j] == seqs[j + 1]);
        }
    }
}

/// Membership in a prefix grows one element at a time.
pub proof fn lemma_seq_contains_take_step(seqs: Seq<Seq<u8>>, v: Seq<u8>, t: int)
    requires
        0 <= t < seqs.len(),
    ensures
        seq_contains(seqs.take(t + 1), v) <==> (seq_contains(seqs.take(t), v) || seqs[t] == v),
{
    if seq_contains(seqs.take(t + 1), v) {
        let i = choose|i: int| 0 <= i < seqs.take(t + 1).len() && #[trigger] seqs.take(t + 1)[i]
            == v;
        if i < t {
            assert(seqs.take(t)[i] == v);
        }
    }
    if seq_contains(seqs.take(t), v) {
        let i = choose|i: int| 0 <= i < seqs.take(t).len() && #[trigger] seqs.take(t)[i] == v;
        assert(seqs.take(t + 1)[i] == v);
    }
    if seqs[t] == v {
        assert(seqs.take(t + 1)[t] == v);
    }
}

/// A sequence has at most one unambiguous parent.
pub proof fn lemma_unambiguous_parent_unique(seqs: Seq<Seq<u8>>, v: Seq<u8>, c1: Seq<u8>, c2: Seq<u8>)
    requires
        unambiguous_parent(seqs, v, c1),
        unambiguous_parent(seqs, v, c2),
    ensures
        c1 == c2,
{
}

/// Every index stored in the lookup table points into the canonical list.
pub proof fn lemma_lookup_table_bounds(seqs: Seq<Seq<u8>>, exact: bool)
    requires
        seqs.len() <= usize::MAX,
    ensures
        forall|v: Seq<u8>|
            #[trigger] lookup_table(seqs, exact).contains_key(v) ==> lookup_table(seqs, exact)[v]
                < seqs.len(),
{
    assert forall|v: Seq<u8>| #[trigger]
        lookup_table(seqs, exact).contains_key(v) implies lookup_table(seqs, exact)[v]
        < seqs.len() by {
        if seq_contains(seqs, v) {
            lemma_first_index(seqs, v);
        } else {
            let c = the_parent(seqs, v);
            assert(unambiguous_parent(seqs, v, c));
            lemma_first_index(seqs, c);
        }
    }
}

} // verus!
