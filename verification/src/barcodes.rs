//! The barcode dictionary: canonical sequences loaded from a newline-delimited
//! buffer, an optional spacer suffix, a mismatch-tolerant lookup table, and
//! the bounded sliding-window matcher.

use vstd::prelude::*;
use vstd::slice::{slice_subrange, slice_to_vec};
use vstd::string::StringSliceAdditionalSpecFns;
use vstd::pervasive::VecAdditionalExecFns;

use crate::bytemap::{byte_map_model, ByteMap};
use crate::seqops::{bytes_eq, copy_bytes, derives_from_exec, push_all, split_into_lines, trim_bytes};
use crate::seqspec::{
    lemma_seq_contains_take_step,
    barcode_seqs, derives_from, first_index, has_unambiguous_parent, is_nucleotide,
    lemma_first_index, lemma_first_index_at, lemma_lookup_table_bounds,
    lemma_unambiguous_parent_unique, lookup_table, match_at, match_result_ok, seq_contains,
    split_lines, submatch_result_ok, the_parent, trimmed, unambiguous_parent, uniform_len, views,
};

verus! {

/// A constant suffix appended to every sequence of a barcode set at load
/// time.
pub struct Spacer {
    seq: Vec<u8>,
}

impl View for Spacer {
    type V = Seq<u8>;

    closed spec fn view(&self) -> Seq<u8> {
        self.seq@
    }
}

impl Spacer {
    /// A spacer from its text form; the stored bytes are the string's UTF-8
    /// bytes.
    pub fn from_str(seq: &str) -> (r: Spacer)
        ensures
            r@ == seq.spec_bytes(),
    {
        Spacer { seq: slice_to_vec(seq.as_bytes()) }
    }

    pub fn seq(&self) -> (r: &[u8])
        ensures
            r@ == self@,
    {
        self.seq.as_slice()
    }
}

/// Failure of dictionary construction.
#[derive(Debug, PartialEq, Eq, Structural)]
pub enum BarcodeError {
    /// The canonical sequences do not all have the same length.
    LengthVariance,
}

/// The spacer bytes that a load call appends to every line: empty when no
/// spacer is given.
pub open spec fn spacer_seq(spacer: Option<&Spacer>) -> Seq<u8> {
    match spacer {
        Some(s) => s@,
        None => Seq::empty(),
    }
}

/// A dictionary of canonical barcode sequences with a lookup table from
/// literal fixed-length sequences to canonical indices.
#[derive(Debug)]
pub struct Barcodes {
    map: ByteMap,
    index: Vec<Vec<u8>>,
    len: usize,
    spacer_len: usize,
    exact: bool,
}

impl Barcodes {
    /// The canonical sequences, one per index.
    pub closed spec fn seqs(&self) -> Seq<Seq<u8>> {
        views(self.index@)
    }

    /// The lookup table: variant sequence to canonical index.
    pub closed spec fn lookup(&self) -> Map<Seq<u8>, usize> {
        byte_map_model(self.map)
    }

    /// The fixed sequence length, spacer included.
    pub closed spec fn spec_len(&self) -> nat {
        self.len as nat
    }

    /// The length of the spacer suffix carried by every stored sequence.
    pub closed spec fn spec_spacer_len(&self) -> nat {
        self.spacer_len as nat
    }

    /// Whether the lookup table is exact (no single-substitution variants).
    pub closed spec fn is_exact(&self) -> bool {
        self.exact
    }

    /// Well-formedness: the lookup table is exactly the one derived from the
    /// canonical sequences, all sequences have the fixed length, every stored
    /// index is in range, and the spacer fits inside each sequence.
    pub open spec fn wf(&self) -> bool {
        &&& self.lookup() == lookup_table(self.seqs(), self.is_exact())
        &&& forall|i: int| 0 <= i < self.seqs().len() ==> (#[trigger] self.seqs()[i]).len()
            == self.spec_len()
        &&& forall|v: Seq<u8>| #[trigger]
            self.lookup().contains_key(v) ==> self.lookup()[v] < self.seqs().len()
        &&& self.spec_spacer_len() <= self.spec_len()
    }

    /// The sequence that index `i` contributes to a reconstructed output:
    /// the canonical sequence, with the spacer suffix kept or stripped.
    pub open spec fn emitted(&self, i: int, include_spacer: bool) -> Seq<u8> {
        if include_spacer {
            self.seqs()[i]
        } else {
            self.seqs()[i].take(self.spec_len() - self.spec_spacer_len())
        }
    }

    /// The fixed length of every stored sequence, spacer included.
    pub fn len(&self) -> (r: usize)
        ensures
            r == self.spec_len(),
    {
        self.len
    }

    /// The number of canonical sequences.
    pub fn num_barcodes(&self) -> (r: usize)
        ensures
            r == self.seqs().len(),
    {
        self.index.len()
    }

    /// The number of keys in the lookup table.
    pub fn lookup_len(&self) -> (r: usize)
        ensures
            r == self.lookup().dom().len(),
    {
        self.map.len()
    }

    /// The canonical index stored under a literal sequence, or nothing when
    /// the sequence is not a key of the lookup table.
    pub fn get_id(&self, barcode: &[u8]) -> (r: Option<usize>)
        ensures
            r == if self.lookup().contains_key(barcode@) {
                Some(self.lookup()[barcode@])
            } else {
                None::<usize>
            },
    {
        self.map.get(barcode)
    }

    /// The canonical sequence for an index, with or without the spacer
    /// suffix, or nothing when the index is out of range.
    pub fn get_barcode(&self, idx: usize, include_spacer: bool) -> (r: Option<Vec<u8>>)
        requires
            self.wf(),
        ensures
            match r {
                Some(bc) => idx < self.seqs().len() && bc@ == self.emitted(
                    idx as int,
                    include_spacer,
                ),
                None => idx >= self.seqs().len(),
            },
    {
        if idx >= self.index.len() {
            return None;
        }
        Some(self.emit_barcode(idx, include_spacer))
    }

    /// The canonical sequence for an in-range index, with or without the
    /// spacer suffix.
    pub fn emit_barcode(&self, idx: usize, include_spacer: bool) -> (r: Vec<u8>)
        requires
            self.wf(),
            idx < self.seqs().len(),
        ensures
            r@ == self.emitted(idx as int, include_spacer),
    {
        proof {
            assert(self.seqs()[idx as int] == self.index@[idx as int]@);
            assert(self.seqs()[idx as int].len() == self.spec_len());
        }
        if include_spacer {
            copy_bytes(&self.index[idx])
        } else {
            slice_to_vec(slice_subrange(self.index[idx].as_slice(), 0, self.len - self.spacer_len))
        }
    }

    /// Slides a window of the fixed length left to right over the sequence
    /// and reports the end position of the leftmost window that is a lookup
    /// key, together with the canonical index stored under it.
    pub fn match_sequence(&self, sequence: &[u8]) -> (r: Option<(usize, usize)>)
        ensures
            match_result_ok(self.lookup(), sequence@, self.spec_len(), r),
    {
        if self.len > sequence.len() {
            return None;
        }
        if self.len == 0 {
            let key = slice_subrange(sequence, 0, 0);
            match self.map.get(key) {
                Some(id) => {
                    return Some((0, id));
                },
                None => {
                    proof {
                        assert forall|q: int| !match_at(
                            self.lookup(),
                            sequence@,
                            self.spec_len(),
                            q,
                        ) by {
                            if 0 <= q && q <= sequence@.len() {
                                assert(sequence@.subrange(q, q) =~= key@);
                            }
                        }
                    }
                    return None;
                },
            }
        }
        let mut p: usize = 0;
        while p <= sequence.len() - self.len
            invariant
                0 < self.len <= sequence@.len(),
                p <= sequence@.len() - self.len + 1,
                forall|q: int| q < p ==> !match_at(self.lookup(), sequence@, self.spec_len(), q),
            decreases sequence@.len() - self.len - p + 1,
        {
            let key = slice_subrange(sequence, p, p + self.len);
            match self.map.get(key) {
                Some(id) => {
                    return Some((p + self.len, id));
                },
                None => {},
            }
            p = p + 1;
        }
        proof {
            assert forall|q: int| !match_at(
                self.lookup(),
                sequence@,
                self.spec_len(),
                q,
            ) by {
                if 0 <= q && q + self.spec_len() <= sequence@.len() {
                    assert(q < p);
                }
            }
        }
        None
    }

    /// The sliding-window matcher restricted to `sequence[start..end]`:
    /// inverted or out-of-range bounds yield no match, never a failure. A
    /// reported end position is relative to `start`.
    pub fn match_subsequence(&self, sequence: &[u8], start: usize, end: usize) -> (r: Option<
        (usize, usize),
    >)
        ensures
            submatch_result_ok(
                self.lookup(),
                sequence@,
                self.spec_len(),
                start as int,
                end as int,
                r,
            ),
    {
        if start > sequence.len() || end > sequence.len() || start > end {
            return None;
        }
        self.match_sequence(slice_subrange(sequence, start, end))
    }
}

/// Exact description of dictionary construction: it fails precisely when the
/// processed sequences (each line trimmed, spacer appended) do not all have
/// one length; on success the dictionary holds those sequences, the lookup
/// table derived from them, and their common length.
pub open spec fn parse_result_ok(
    buf: Seq<u8>,
    sp: Seq<u8>,
    exact: bool,
    r: Result<Barcodes, BarcodeError>,
) -> bool {
    let seqs = barcode_seqs(buf, sp);
    match r {
        Ok(b) => {
            &&& uniform_len(seqs)
            &&& b.wf()
            &&& b.seqs() == seqs
            &&& b.is_exact() == exact
            &&& b.spec_len() == if seqs.len() > 0 {
                seqs[0].len()
            } else {
                0
            }
            &&& b.spec_spacer_len() == if seqs.len() > 0 {
                sp.len()
            } else {
                0
            }
        },
        Err(e) => !uniform_len(seqs) && e == BarcodeError::LengthVariance,
    }
}

impl Barcodes {
    /// A dictionary from a newline-delimited buffer of canonical sequences,
    /// without a spacer.
    pub fn from_buffer(reader: &[u8], exact: bool) -> (r: Result<Barcodes, BarcodeError>)
        ensures
            parse_result_ok(reader@, Seq::empty(), exact, r),
    {
        Self::parse_buffer(reader, None, exact)
    }

    /// A dictionary from a newline-delimited buffer of canonical sequences,
    /// with the spacer appended to every line.
    pub fn from_buffer_with_spacer(reader: &[u8], spacer: &Spacer, exact: bool) -> (r: Result<
        Barcodes,
        BarcodeError,
    >)
        ensures
            parse_result_ok(reader@, spacer@, exact, r),
    {
        Self::parse_buffer(reader, Some(spacer), exact)
    }

    /// Reads a sequence from one line: trimmed of surrounding whitespace,
    /// with the spacer appended if one is given.
    fn read_sequence(line: &[u8], spacer: Option<&Spacer>) -> (r: Vec<u8>)
        ensures
            r@ == trimmed(line@) + spacer_seq(spacer),
    {
        let mut barcode = trim_bytes(line);
        match spacer {
            Some(spc) => push_all(&mut barcode, spc.seq()),
            None => {
                proof {
                    assert(barcode@ + spacer_seq(spacer) =~= barcode@);
                }
            },
        }
        barcode
    }

    /// Parses a newline-delimited buffer into a dictionary. Each line is
    /// trimmed and, if a spacer is given, has the spacer bytes appended; the
    /// call fails if the resulting sequences are not all the same length. In
    /// exact mode the lookup table maps each canonical sequence to its first
    /// index; otherwise it additionally maps every unambiguous
    /// single-nucleotide substitution variant to its parent's index.
    #[verifier::loop_isolation(false)]
    pub fn parse_buffer(reader: &[u8], spacer: Option<&Spacer>, exact: bool) -> (r: Result<
        Barcodes,
        BarcodeError,
    >)
        ensures
            parse_result_ok(reader@, spacer_seq(spacer), exact, r),
    {
        let ghost sp = spacer_seq(spacer);
        let ghost sv = barcode_seqs(reader@, sp);
        let raw = split_into_lines(reader);
        // Trim each line and append the spacer.
        let mut seqs_vec: Vec<Vec<u8>> = Vec::new();
        let mut k: usize = 0;
        proof {
            assert(views(seqs_vec@) =~= sv.take(0));
        }
        while k < raw.len()
            invariant
                k <= raw@.len(),
                views(raw@) == split_lines(reader@),
                sp == spacer_seq(spacer),
                sv == barcode_seqs(reader@, sp),
                sv.len() == raw@.len(),
                views(seqs_vec@) == sv.take(k as int),
            decreases raw@.len() - k,
        {
            let s = Self::read_sequence(raw[k].as_slice(), spacer);
            proof {
                assert(views(raw@)[k as int] == raw@[k as int]@);
                assert(sv[k as int] == trimmed(split_lines(reader@)[k as int]) + sp);
                assert(s@ == sv[k as int]);
            }
            let ghost prev = seqs_vec@;
            seqs_vec.push(s);
            proof {
                assert(seqs_vec@ == prev.push(s));
                assert(views(prev).len() == prev.len());
                assert(prev.len() == k);
                assert forall|i: int| 0 <= i < views(seqs_vec@).len() implies views(seqs_vec@)[i]
                    == sv.take(k + 1)[i] by {
                    assert(views(seqs_vec@)[i] == seqs_vec@[i]@);
                    if i < k {
                        assert(seqs_vec@[i] == prev[i]);
                        assert(views(prev)[i] == prev[i]@);
                        assert(views(prev)[i] == sv.take(k as int)[i]);
                    } else {
                        assert(seqs_vec@[i] == s);
                    }
                }
                assert(views(seqs_vec@) =~= sv.take(k + 1));
            }
            k = k + 1;
        }
        proof {
            assert(sv.take(sv.len() as int) =~= sv);
            assert(views(seqs_vec@) == sv);
        }
        // All sequences must share one length.
        let mut bc_len: usize = 0;
        if seqs_vec.len() > 0 {
            proof {
                assert(sv[0] == seqs_vec@[0]@);
            }
            bc_len = seqs_vec[0].len();
            let mut j: usize = 1;
            while j < seqs_vec.len()
                invariant
                    1 <= j <= seqs_vec@.len(),
                    views(seqs_vec@) == sv,
                    sv.len() == seqs_vec@.len(),
                    bc_len == sv[0].len(),
                    forall|i: int| 0 <= i < j ==> (#[trigger] sv[i]).len() == bc_len,
                decreases seqs_vec@.len() - j,
            {
                proof {
                    assert(sv[j as int] == seqs_vec@[j as int]@);
                }
                if seqs_vec[j].len() != bc_len {
                    proof {
                        assert(sv[0] == seqs_vec@[0]@);
                        assert(sv[j as int].len() != sv[0].len());
                        assert(!uniform_len(sv));
                    }
                    return Err(BarcodeError::LengthVariance);
                }
                j = j + 1;
            }
        }
        proof {
            assert(uniform_len(sv));
        }
        // The spacer length, for stripping it from reconstructed output.
        let spacer_len: usize = if seqs_vec.len() == 0 {
            0
        } else {
            match spacer {
                Some(spc) => {
                    proof {
                        assert(sv[0] == trimmed(split_lines(reader@)[0]) + sp);
                    }
                    spc.seq().len()
                },
                None => 0,
            }
        };
        // The canonical part of the lookup table: each distinct sequence maps
        // to its first index; `uniq` keeps the distinct sequences.
        let mut map = ByteMap::new();
        let mut uniq: Vec<Vec<u8>> = Vec::new();
        let mut uniq_first: Vec<usize> = Vec::new();
        let mut idx: usize = 0;
        while idx < seqs_vec.len()
            invariant
                idx <= seqs_vec@.len(),
                views(seqs_vec@) == sv,
                sv.len() == seqs_vec@.len(),
                uniq_first@.len() == uniq@.len(),
                forall|v: Seq<u8>| #[trigger]
                    byte_map_model(map).contains_key(v) ==> seq_contains(sv.take(idx as int), v)
                        && byte_map_model(map)[v] == first_index(sv, v) as usize,
                forall|v: Seq<u8>| #[trigger]
                    seq_contains(sv.take(idx as int), v) ==> byte_map_model(map).contains_key(v)
                        && seq_contains(views(uniq@), v),
                forall|i: int, j: int|
                    0 <= i < j < uniq@.len() ==> views(uniq@)[i] != views(uniq@)[j],
                forall|i: int|
                    0 <= i < uniq@.len() ==> seq_contains(sv, #[trigger] views(uniq@)[i]) && 0
                        <= first_index(sv, views(uniq@)[i]) < sv.len() && uniq_first@[i]
                        == first_index(sv, views(uniq@)[i]) as usize,
                forall|v: Seq<u8>| #[trigger]
                    seq_contains(views(uniq@), v) ==> seq_contains(sv.take(idx as int), v),
            decreases seqs_vec@.len() - idx,
        {
            let present = map.get(seqs_vec[idx].as_slice());
            let ghost cur = sv[idx as int];
            proof {
                assert(cur == seqs_vec@[idx as int]@);
            }
            if present.is_none() {
                proof {
                    assert forall|j: int| 0 <= j < idx implies sv[j] != cur by {
                        if sv[j] == cur {
                            assert(sv.take(idx as int)[j] == cur);
                            assert(seq_contains(sv.take(idx as int), cur));
                        }
                    }
                    lemma_first_index_at(sv, idx as int);
                }
                let key = copy_bytes(&seqs_vec[idx]);
                map.insert(key, idx);
                let ghost prev_uniq = uniq@;
                uniq.push(copy_bytes(&seqs_vec[idx]));
                uniq_first.push(idx);
                proof {
                    assert(idx < sv.len());
                    assert forall|i: int|
                        0 <= i < uniq@.len() implies seq_contains(sv, #[trigger] views(uniq@)[i])
                        && 0 <= first_index(sv, views(uniq@)[i]) < sv.len() && uniq_first@[i]
                        == first_index(sv, views(uniq@)[i]) as usize by {
                        if i < uniq@.len() - 1 {
                            assert(views(uniq@)[i] == uniq@[i]@);
                            assert(views(prev_uniq)[i] == prev_uniq[i]@);
                            assert(views(uniq@)[i] == views(prev_uniq)[i]);
                        } else {
                            assert(views(uniq@)[i] == cur);
                            lemma_first_index(sv, cur);
                        }
                    }
                    assert forall|i: int, j: int|
                        0 <= i < j < uniq@.len() implies views(uniq@)[i] != views(uniq@)[j] by {
                        assert(views(uniq@)[i] == uniq@[i]@);
                        assert(views(uniq@)[j] == uniq@[j]@);
                        if j == uniq@.len() - 1 {
                            assert(views(uniq@)[i] == views(prev_uniq)[i]);
                            assert(views(uniq@)[j] == cur);
                            assert(seq_contains(views(prev_uniq), views(uniq@)[i]));
                            assert(seq_contains(sv.take(idx as int), views(uniq@)[i]));
                            if views(uniq@)[i] == cur {
                                assert(seq_contains(sv.take(idx as int), cur));
                            }
                        } else {
                            assert(views(uniq@)[i] == views(prev_uniq)[i]);
                            assert(views(uniq@)[j] == views(prev_uniq)[j]);
                        }
                    }
                    assert forall|v: Seq<u8>| #[trigger]
                        seq_contains(views(uniq@), v) implies seq_contains(views(prev_uniq), v)
                        || v == cur by {
                        let i = choose|i: int|
                            0 <= i < views(uniq@).len() && #[trigger] views(uniq@)[i] == v;
                        if i < uniq@.len() - 1 {
                            assert(views(prev_uniq)[i] == views(uniq@)[i]);
                        }
                    }
                    assert forall|v: Seq<u8>| #[trigger]
                        seq_contains(views(prev_uniq), v) implies seq_contains(
                        views(uniq@),
                        v,
                    ) by {
                        let i = choose|i: int|
                            0 <= i < views(prev_uniq).len() && #[trigger] views(prev_uniq)[i] == v;
                        assert(views(uniq@)[i] == v);
                    }
                    assert(seq_contains(views(uniq@), cur)) by {
                        assert(views(uniq@)[uniq@.len() - 1] == cur);
                    }
                }
            }
            proof {
                let m1 = byte_map_model(map);
                assert forall|v: Seq<u8>| #[trigger]
                    m1.contains_key(v) implies seq_contains(sv.take(idx + 1), v) && m1[v]
                    == first_index(sv, v) as usize by {
                    lemma_seq_contains_take_step(sv, v, idx as int);
                }
                assert forall|v: Seq<u8>| #[trigger]
                    seq_contains(sv.take(idx + 1), v) implies m1.contains_key(v) && seq_contains(
                    views(uniq@),
                    v,
                ) by {
                    lemma_seq_contains_take_step(sv, v, idx as int);
                }
                assert forall|v: Seq<u8>| #[trigger]
                    seq_contains(views(uniq@), v) implies seq_contains(sv.take(idx + 1), v) by {
                    lemma_seq_contains_take_step(sv, v, idx as int);
                }
            }
            idx = idx + 1;
        }
        proof {
            assert(sv.take(sv.len() as int) =~= sv);
        }
        if exact {
            proof {
                let m = byte_map_model(map);
                let tbl = lookup_table(sv, true);
                assert forall|v: Seq<u8>| #[trigger] tbl.contains_key(v) implies m.contains_key(v)
                    && m[v] == tbl[v] by {
                    assert(seq_contains(sv, v));
                }
                assert forall|v: Seq<u8>| #[trigger] m.contains_key(v) implies tbl.contains_key(
                    v,
                ) by {
                    assert(seq_contains(sv, v));
                }
                assert(m =~= tbl);
                lemma_lookup_table_bounds(sv, true);
            }
            let b = Barcodes { map, index: seqs_vec, len: bc_len, spacer_len, exact };
            return Ok(b);
        }
        // Fuzzy mode: walk every single-nucleotide substitution of every
        // distinct canonical sequence and keep the unambiguous ones.
        let mut ui: usize = 0;
        while ui < uniq.len()
            invariant
                ui <= uniq@.len(),
                sv.len() <= usize::MAX,
                uniq_ok(views(uniq@), sv),
                uniq_first@.len() == uniq@.len(),
                forall|i: int|
                    0 <= i < uniq@.len() ==> seq_contains(sv, #[trigger] views(uniq@)[i]) && 0
                        <= first_index(sv, views(uniq@)[i]) < sv.len() && uniq_first@[i]
                        == first_index(sv, views(uniq@)[i]) as usize,
                table_canon(byte_map_model(map), sv),
                table_sound(byte_map_model(map), sv),
                forall|v: Seq<u8>, c: Seq<u8>|
                    #![trigger seq_contains(views(uniq@).take(ui as int), c), derives_from(v, c)]
                    seq_contains(views(uniq@).take(ui as int), c) && derives_from(v, c)
                        ==> fuzzy_entry_done(byte_map_model(map), sv, v),
            decreases uniq@.len() - ui,
        {
            let u_len = uniq[ui].len();
            let parent_first = uniq_first[ui];
            let ghost uc = views(uniq@)[ui as int];
            proof {
                assert(uc == uniq@[ui as int]@);
            }
            let mut p: usize = 0;
            while p < u_len
                invariant
                    ui < uniq@.len(),
                    p <= u_len,
                    u_len == uniq@[ui as int]@.len(),
                    uc == views(uniq@)[ui as int],
                    parent_first == uniq_first@[ui as int],
                    sv.len() <= usize::MAX,
                    uniq_ok(views(uniq@), sv),
                    uniq_first@.len() == uniq@.len(),
                    forall|i: int|
                        0 <= i < uniq@.len() ==> seq_contains(sv, #[trigger] views(uniq@)[i]) && 0
                            <= first_index(sv, views(uniq@)[i]) < sv.len() && uniq_first@[i]
                            == first_index(sv, views(uniq@)[i]) as usize,
                    table_canon(byte_map_model(map), sv),
                    table_sound(byte_map_model(map), sv),
                    forall|v: Seq<u8>, c: Seq<u8>|
                        #![trigger seq_contains(views(uniq@).take(ui as int), c), derives_from(v, c)]
                        seq_contains(views(uniq@).take(ui as int), c) && derives_from(v, c)
                            ==> fuzzy_entry_done(byte_map_model(map), sv, v),
                    forall|p2: int, x: u8|
                        0 <= p2 < p && is_nucleotide(x) && x != uc[p2] ==> fuzzy_entry_done(
                            byte_map_model(map),
                            sv,
                            #[trigger] uc.update(p2, x),
                        ),
                decreases u_len - p,
            {
                consider_variant(&mut map, &uniq, &uniq[ui], parent_first, p, 65, Ghost(sv));
                consider_variant(&mut map, &uniq, &uniq[ui], parent_first, p, 67, Ghost(sv));
                consider_variant(&mut map, &uniq, &uniq[ui], parent_first, p, 71, Ghost(sv));
                consider_variant(&mut map, &uniq, &uniq[ui], parent_first, p, 84, Ghost(sv));
                proof {
                    assert forall|p2: int, x: u8|
                        0 <= p2 < p + 1 && is_nucleotide(x) && x != uc[p2]
                        implies fuzzy_entry_done(
                        byte_map_model(map),
                        sv,
                        #[trigger] uc.update(p2, x),
                    ) by {
                        if p2 == p {
                            assert(x == 65 || x == 67 || x == 71 || x == 84);
                        }
                    }
                }
                p = p + 1;
            }
            proof {
                let usq = views(uniq@);
                assert forall|v: Seq<u8>, c: Seq<u8>|
                    seq_contains(#[trigger] usq.take(ui + 1), c) && #[trigger] derives_from(v, c)
                    implies fuzzy_entry_done(byte_map_model(map), sv, v) by {
                    lemma_seq_contains_take_step(usq, c, ui as int);
                    if seq_contains(usq.take(ui as int), c) {
                    } else {
                        assert(c == uc);
                        let (p2, x): (int, u8) = choose|p2: int, x: u8|
                            0 <= p2 < c.len() && is_nucleotide(x) && x != c[p2] && v == c.update(
                                p2,
                                x,
                            );
                        assert(fuzzy_entry_done(byte_map_model(map), sv, uc.update(p2, x)));
                    }
                }
            }
            ui = ui + 1;
        }
        proof {
            let usq = views(uniq@);
            let m = byte_map_model(map);
            let tbl = lookup_table(sv, false);
            assert(usq.take(usq.len() as int) =~= usq);
            assert forall|v: Seq<u8>| #[trigger] tbl.contains_key(v) implies m.contains_key(v)
                && m[v] == tbl[v] by {
                if seq_contains(sv, v) {
                } else {
                    let c = the_parent(sv, v);
                    assert(unambiguous_parent(sv, v, c));
                    assert(seq_contains(usq, c));
                    assert(derives_from(v, c));
                    assert(fuzzy_entry_done(m, sv, v));
                }
            }
            assert forall|v: Seq<u8>| #[trigger] m.contains_key(v) implies tbl.contains_key(v) by {
                if !seq_contains(sv, v) {
                    assert(has_unambiguous_parent(sv, v));
                }
            }
            assert(m =~= tbl);
            lemma_lookup_table_bounds(sv, false);
        }
        let b = Barcodes { map, index: seqs_vec, len: bc_len, spacer_len, exact };
        Ok(b)
    }
}

/// The canonical entries of a lookup table under construction are complete
/// and carry first-occurrence indices.
spec fn table_canon(m: Map<Seq<u8>, usize>, seqs: Seq<Seq<u8>>) -> bool {
    forall|v: Seq<u8>| #[trigger]
        seq_contains(seqs, v) ==> m.contains_key(v) && m[v] == first_index(seqs, v) as usize
}

/// Every entry of a lookup table under construction is either a canonical
/// sequence or an unambiguous variant, with the right index.
spec fn table_sound(m: Map<Seq<u8>, usize>, seqs: Seq<Seq<u8>>) -> bool {
    forall|v: Seq<u8>| #[trigger]
        m.contains_key(v) ==> if seq_contains(seqs, v) {
            m[v] == first_index(seqs, v) as usize
        } else {
            has_unambiguous_parent(seqs, v) && m[v] == first_index(
                seqs,
                the_parent(seqs, v),
            ) as usize
        }
}

/// If `v` belongs to the fuzzy part of the finished table, the table under
/// construction already holds it.
spec fn fuzzy_entry_done(m: Map<Seq<u8>, usize>, seqs: Seq<Seq<u8>>, v: Seq<u8>) -> bool {
    (!seq_contains(seqs, v) && has_unambiguous_parent(seqs, v)) ==> (m.contains_key(v) && m[v]
        == first_index(seqs, the_parent(seqs, v)) as usize)
}

/// The deduplicated canonical list: distinct entries that cover exactly the
/// sequences of `seqs`.
spec fn uniq_ok(us: Seq<Seq<u8>>, seqs: Seq<Seq<u8>>) -> bool {
    &&& forall|i: int, j: int| 0 <= i < j < us.len() ==> us[i] != us[j]
    &&& forall|i: int| 0 <= i < us.len() ==> seq_contains(seqs, #[trigger] us[i])
    &&& forall|v: Seq<u8>| #[trigger] seq_contains(seqs, v) ==> seq_contains(us, v)
}

/// How many entries of `us` the sequence `v` derives from.
spec fn count_derivers(us: Seq<Seq<u8>>, v: Seq<u8>) -> nat
    decreases us.len(),
{
    if us.len() == 0 {
        0
    } else {
        count_derivers(us.drop_last(), v) + if derives_from(v, us.last()) {
            1nat
        } else {
            0nat
        }
    }
}

proof fn lemma_count_ge_one(us: Seq<Seq<u8>>, v: Seq<u8>, j: int)
    requires
        0 <= j < us.len(),
        derives_from(v, us[j]),
    ensures
        count_derivers(us, v) >= 1,
    decreases us.len(),
{
    if j < us.len() - 1 {
        lemma_count_ge_one(us.drop_last(), v, j);
    }
}

proof fn lemma_count_ge_two(us: Seq<Seq<u8>>, v: Seq<u8>, j1: int, j2: int)
    requires
        0 <= j1 < j2 < us.len(),
        derives_from(v, us[j1]),
        derives_from(v, us[j2]),
    ensures
        count_derivers(us, v) >= 2,
    decreases us.len(),
{
    if j2 == us.len() - 1 {
        lemma_count_ge_one(us.drop_last(), v, j1);
    } else {
        lemma_count_ge_two(us.drop_last(), v, j1, j2);
    }
}

proof fn lemma_count_one_exists(us: Seq<Seq<u8>>, v: Seq<u8>)
    requires
        count_derivers(us, v) >= 1,
    ensures
        exists|j: int| 0 <= j < us.len() && derives_from(v, #[trigger] us[j]),
    decreases us.len(),
{
    if !derives_from(v, us.last()) {
        lemma_count_one_exists(us.drop_last(), v);
        let j = choose|j: int|
            0 <= j < us.drop_last().len() && derives_from(v, #[trigger] us.drop_last()[j]);
        assert(us[j] == us.drop_last()[j]);
    } else {
        assert(us[us.len() - 1] == us.last());
    }
}

proof fn lemma_count_two_exists(us: Seq<Seq<u8>>, v: Seq<u8>)
    requires
        count_derivers(us, v) >= 2,
    ensures
        exists|j1: int, j2: int|
            0 <= j1 < j2 < us.len() && derives_from(v, #[trigger] us[j1]) && derives_from(
                v,
                #[trigger] us[j2],
            ),
    decreases us.len(),
{
    if derives_from(v, us.last()) {
        lemma_count_one_exists(us.drop_last(), v);
        let j = choose|j: int|
            0 <= j < us.drop_last().len() && derives_from(v, #[trigger] us.drop_last()[j]);
        assert(us[j] == us.drop_last()[j]);
        assert(derives_from(v, us[us.len() - 1]));
    } else {
        lemma_count_two_exists(us.drop_last(), v);
        let (j1, j2) = choose|j1: int, j2: int|
            0 <= j1 < j2 < us.drop_last().len() && derives_from(v, #[trigger] us.drop_last()[j1])
                && derives_from(v, #[trigger] us.drop_last()[j2]);
        assert(us[j1] == us.drop_last()[j1]);
        assert(us[j2] == us.drop_last()[j2]);
    }
}

/// The sequence `u` with position `p` replaced by `x`.
fn substitute(u: &Vec<u8>, p: usize, x: u8) -> (r: Vec<u8>)
    requires
        p < u@.len(),
    ensures
        r@ == u@.update(p as int, x),
{
    let mut r = copy_bytes(u);
    r.set(p, x);
    r
}

/// Insert the variant of `u` at position `p` with letter `x` into the table
/// under construction, when that variant is neither canonical nor ambiguous.
fn consider_variant(
    map: &mut ByteMap,
    uniq: &Vec<Vec<u8>>,
    u: &Vec<u8>,
    parent_first: usize,
    p: usize,
    x: u8,
    Ghost(seqs): Ghost<Seq<Seq<u8>>>,
)
    requires
        p < u@.len(),
        is_nucleotide(x),
        uniq_ok(views(uniq@), seqs),
        seq_contains(seqs, u@),
        parent_first == first_index(seqs, u@) as usize,
        first_index(seqs, u@) <= usize::MAX,
        table_canon(byte_map_model(*old(map)), seqs),
        table_sound(byte_map_model(*old(map)), seqs),
    ensures
        table_canon(byte_map_model(*final (map)), seqs),
        table_sound(byte_map_model(*final (map)), seqs),
        forall|w: Seq<u8>|
            fuzzy_entry_done(byte_map_model(*old(map)), seqs, w) ==> fuzzy_entry_done(
                byte_map_model(*final (map)),
                seqs,
                w,
            ),
        x != u@[p as int] ==> fuzzy_entry_done(byte_map_model(*final (map)), seqs, u@.update(
            p as int,
            x,
        )),
{
    let ghost us = views(uniq@);
    if x == u[p] {
        return ;
    }
    let v = substitute(u, p, x);
    proof {
        assert(derives_from(v@, u@));
    }
    // Is the variant itself a canonical sequence?
    let mut is_canon = false;
    let mut t: usize = 0;
    while t < uniq.len()
        invariant
            t <= uniq@.len(),
            us == views(uniq@),
            is_canon == seq_contains(us.take(t as int), v@),
        decreases uniq@.len() - t,
    {
        if bytes_eq(v.as_slice(), uniq[t].as_slice()) {
            is_canon = true;
        }
        proof {
            lemma_seq_contains_take_step(us, v@, t as int);
            assert(us[t as int] == uniq@[t as int]@);
        }
        t = t + 1;
    }
    proof {
        assert(us.take(us.len() as int) =~= us);
    }
    if is_canon {
        // A canonical sequence never joins the fuzzy part of the table.
        proof {
            let i = choose|i: int| 0 <= i < us.len() && us[i] == v@;
            assert(seq_contains(seqs, us[i]));
        }
        return ;
    }
    proof {
        // The variant is canonical in `seqs` iff it occurs in `uniq`.
        if seq_contains(seqs, v@) {
            assert(seq_contains(us, v@));
        }
    }
    // Count the distinct canonical sequences the variant derives from.
    let mut nparents: usize = 0;
    let mut t: usize = 0;
    while t < uniq.len()
        invariant
            t <= uniq@.len(),
            us == views(uniq@),
            nparents == count_derivers(us.take(t as int), v@),
            nparents <= t,
        decreases uniq@.len() - t,
    {
        let d = derives_from_exec(v.as_slice(), uniq[t].as_slice());
        proof {
            assert(us.take(t + 1).drop_last() =~= us.take(t as int));
            assert(us.take(t + 1).last() == us[t as int]);
            assert(us[t as int] == uniq@[t as int]@);
        }
        if d {
            nparents = nparents + 1;
        }
        t = t + 1;
    }
    proof {
        assert(us.take(us.len() as int) =~= us);
    }
    let ghost m0 = byte_map_model(*map);
    if nparents == 1 {
        proof {
            // The parent `u` occurs in `uniq`; any other deriving canonical
            // would push the count to two.
            let t0 = choose|i: int| 0 <= i < us.len() && us[i] == u@;
            lemma_count_ge_one(us, v@, t0);
            assert forall|c2: Seq<u8>|
                seq_contains(seqs, c2) && derives_from(v@, c2) implies c2 == u@ by {
                if c2 != u@ {
                    let t2 = choose|i: int| 0 <= i < us.len() && us[i] == c2;
                    if t0 < t2 {
                        lemma_count_ge_two(us, v@, t0, t2);
                    } else {
                        assert(t2 != t0);
                        lemma_count_ge_two(us, v@, t2, t0);
                    }
                }
            }
            assert(unambiguous_parent(seqs, v@, u@));
            lemma_unambiguous_parent_unique(seqs, v@, the_parent(seqs, v@), u@);
        }
        map.insert(v, parent_first);
        proof {
            let m1 = byte_map_model(*map);
            assert(m1 == m0.insert(u@.update(p as int, x), parent_first));
            assert forall|w: Seq<u8>| #[trigger]
                m1.contains_key(w) implies if seq_contains(seqs, w) {
                m1[w] == first_index(seqs, w) as usize
            } else {
                has_unambiguous_parent(seqs, w) && m1[w] == first_index(
                    seqs,
                    the_parent(seqs, w),
                ) as usize
            } by {
                if w != u@.update(p as int, x) {
                    assert(m0.contains_key(w));
                }
            }
            assert forall|w: Seq<u8>| #[trigger]
                seq_contains(seqs, w) implies m1.contains_key(w) && m1[w] == first_index(
                seqs,
                w,
            ) as usize by {
                assert(w != u@.update(p as int, x));
            }
        }
    } else {
        proof {
            // The parent `u` itself derives the variant, so the count is at
            // least one; a count of two or more names two distinct canonical
            // sequences, so no parent is unambiguous.
            let t0 = choose|i: int| 0 <= i < us.len() && us[i] == u@;
            lemma_count_ge_one(us, v@, t0);
            assert(nparents >= 2);
            lemma_count_two_exists(us, v@);
            let (j1, j2) = choose|j1: int, j2: int|
                0 <= j1 < j2 < us.len() && derives_from(v@, #[trigger] us[j1]) && derives_from(
                    v@,
                    #[trigger] us[j2],
                );
            assert(us[j1] != us[j2]);
            assert(seq_contains(seqs, us[j1]));
            assert(seq_contains(seqs, us[j2]));
            assert forall|c: Seq<u8>| !unambiguous_parent(seqs, v@, c) by {
                if unambiguous_parent(seqs, v@, c) {
                    assert(us[j1] == c);
                    assert(us[j2] == c);
                }
            }
            assert(!has_unambiguous_parent(seqs, v@));
        }
    }
}

} // verus!
