//! Executable operations on byte sequences — trimming, line splitting,
//! equality, single-substitution tests — each proved against the model in
//! `seqspec`.

use vstd::prelude::*;
use vstd::slice::{slice_subrange, slice_to_vec};

use crate::seqspec::{
    derives_from, first_newline, has_newline, is_nucleotide, is_space, split_lines, trim_back,
    trim_front, trimmed, views,
};

verus! {

/// A cloned byte vector holds the same bytes.
pub fn copy_bytes(v: &Vec<u8>) -> (r: Vec<u8>)
    ensures
        r@ == v@,
{
    let r = v.clone();
    proof {
        assert(r@ =~= v@);
    }
    r
}

/// Append all bytes of a slice to a vector.
pub fn push_all(dst: &mut Vec<u8>, src: &[u8])
    ensures
        final (dst)@ == old(dst)@ + src@,
{
    let ghost orig = dst@;
    let mut i: usize = 0;
    while i < src.len()
        invariant
            i <= src@.len(),
            dst@ == orig + src@.take(i as int),
        decreases src@.len() - i,
    {
        dst.push(src[i]);
        proof {
            assert(orig + src@.take(i as int) + seq![src@[i as int]] =~= orig + src@.take(
                i as int + 1,
            ));
        }
        i = i + 1;
    }
    proof {
        assert(orig + src@.take(src@.len() as int) =~= orig + src@);
    }
}

/// Byte-for-byte equality of two slices.
pub fn bytes_eq(a: &[u8], b: &[u8]) -> (r: bool)
    ensures
        r == (a@ == b@),
{
    if a.len() != b.len() {
        return false;
    }
    let mut i: usize = 0;
    while i < a.len()
        invariant
            a@.len() == b@.len(),
            i <= a@.len(),
            forall|k: int| 0 <= k < i ==> a@[k] == b@[k],
        decreases a@.len() - i,
    {
        if a[i] != b[i] {
            return false;
        }
        i = i + 1;
    }
    proof {
        assert(a@ =~= b@);
    }
    true
}

pub fn is_space_byte(x: u8) -> (r: bool)
    ensures
        r == is_space(x),
{
    x == 32 || x == 9 || x == 10 || x == 11 || x == 12 || x == 13
}

pub fn is_nucleotide_byte(x: u8) -> (r: bool)
    ensures
        r == is_nucleotide(x),
{
    x == 65 || x == 67 || x == 71 || x == 84
}

proof fn lemma_trim_front_is(s: Seq<u8>, a: int)
    requires
        0 <= a <= s.len(),
        forall|k: int| 0 <= k < a ==> is_space(s[k]),
        a < s.len() ==> !is_space(s[a]),
    ensures
        trim_front(s) == s.skip(a),
    decreases a,
{
    if a == 0 {
        if s.len() > 0 && is_space(s[0]) {
            assert(false);
        }
        assert(s.skip(0) =~= s);
    } else {
        assert(is_space(s[0]));
        lemma_trim_front_is(s.drop_first(), a - 1);
        assert(s.drop_first().skip(a - 1) =~= s.skip(a));
    }
}

proof fn lemma_trim_back_is(s: Seq<u8>, b: int)
    requires
        0 <= b <= s.len(),
        forall|k: int| b <= k < s.len() ==> is_space(s[k]),
        b > 0 ==> !is_space(s[b - 1]),
    ensures
        trim_back(s) == s.take(b),
    decreases s.len() - b,
{
    if b == s.len() {
        if b == 0 {
            assert(s.take(0) =~= s);
        } else {
            assert(!is_space(s.last()));
            assert(s.take(b) =~= s);
        }
    } else {
        assert(is_space(s.last()));
        lemma_trim_back_is(s.drop_last(), b);
        assert(s.drop_last().take(b) =~= s.take(b));
    }
}

/// Whitespace stripped from both ends of a line.
pub fn trim_bytes(line: &[u8]) -> (r: Vec<u8>)
    ensures
        r@ == trimmed(line@),
{
    let mut a: usize = 0;
    while a < line.len() && is_space_byte(line[a])
        invariant
            a <= line@.len(),
            forall|k: int| 0 <= k < a ==> is_space(line@[k]),
        decreases line@.len() - a,
    {
        a = a + 1;
    }
    let mut b: usize = line.len();
    while b > a && is_space_byte(line[b - 1])
        invariant
            a <= b <= line@.len(),
            forall|k: int| b <= k < line@.len() ==> is_space(line@[k]),
            a < line@.len() ==> !is_space(line@[a as int]),
        decreases b,
    {
        b = b - 1;
    }
    proof {
        lemma_trim_front_is(line@, a as int);
        let s2 = line@.skip(a as int);
        lemma_trim_back_is(s2, b - a);
        assert(s2.take(b - a) =~= line@.subrange(a as int, b as int));
    }
    slice_to_vec(slice_subrange(line, a, b))
}

proof fn lemma_first_newline_is(s: Seq<u8>, d: int)
    requires
        0 <= d < s.len(),
        s[d] == 10,
        forall|k: int| 0 <= k < d ==> s[k] != 10,
    ensures
        has_newline(s),
        first_newline(s) == d,
    decreases d,
{
    assert(has_newline(s));
    if d > 0 {
        lemma_first_newline_is(s.drop_first(), d - 1);
    }
}

/// The newline-separated lines of a raw buffer, in order.
pub fn split_into_lines(buf: &[u8]) -> (r: Vec<Vec<u8>>)
    ensures
        views(r@) == split_lines(buf@),
{
    let mut lines: Vec<Vec<u8>> = Vec::new();
    let mut start: usize = 0;
    proof {
        assert(views(lines@) =~= Seq::<Seq<u8>>::empty());
        assert(buf@.skip(0) =~= buf@);
    }
    while start < buf.len()
        invariant
            start <= buf@.len(),
            split_lines(buf@) == views(lines@) + split_lines(buf@.skip(start as int)),
        decreases buf@.len() - start,
    {
        let ghost rest = buf@.skip(start as int);
        let mut j: usize = start;
        while j < buf.len() && buf[j] != 10
            invariant
                start <= j <= buf@.len(),
                forall|k: int| start <= k < j ==> buf@[k] != 10,
            decreases buf@.len() - j,
        {
            j = j + 1;
        }
        let line = slice_to_vec(slice_subrange(buf, start, j));
        lines.push(line);
        proof {
            assert(rest.len() > 0);
            if j < buf.len() {
                let d = j - start;
                assert forall|k: int| 0 <= k < d implies rest[k] != 10 by {
                    assert(rest[k] == buf@[start + k]);
                }
                assert(rest[d] == buf@[j as int]);
                lemma_first_newline_is(rest, d);
                assert(split_lines(rest) == seq![rest.take(d)] + split_lines(rest.skip(d + 1)));
                assert(rest.take(d) =~= buf@.subrange(start as int, j as int));
                assert(rest.skip(d + 1) =~= buf@.skip(j + 1));
            } else {
                assert(!has_newline(rest)) by {
                    if has_newline(rest) {
                        let i = choose|i: int| 0 <= i < rest.len() && rest[i] == 10;
                        assert(buf@[start + i] == 10);
                    }
                }
                assert(split_lines(rest) == seq![rest]);
                assert(rest =~= buf@.subrange(start as int, j as int));
                assert(buf@.skip(j as int) =~= Seq::<u8>::empty());
                assert(split_lines(buf@.skip(j as int)) =~= Seq::<Seq<u8>>::empty());
            }
            assert(views(lines@) =~= views(lines@.drop_last()) + seq![lines@.last()@]);
        }
        start = j + if j < buf.len() {
            1
        } else {
            0
        };
    }
    proof {
        assert(buf@.skip(start as int) =~= Seq::<u8>::empty());
        assert(split_lines(buf@) =~= views(lines@));
    }
    lines
}

/// The unique position where two equal-length sequences differ, when `v`
/// arises from `c` by one substitution.
pub proof fn lemma_derives_characterization(v: Seq<u8>, c: Seq<u8>)
    requires
        v.len() == c.len(),
    ensures
        derives_from(v, c) <==> exists|p: int|
            0 <= p < c.len() && v[p] != c[p] && is_nucleotide(v[p]) && (forall|q: int|
                0 <= q < c.len() && q != p ==> v[q] == c[q]),
{
    if derives_from(v, c) {
        let (p, x): (int, u8) = choose|p: int, x: u8|
            0 <= p < c.len() && is_nucleotide(x) && x != c[p] && v == c.update(p, x);
        assert(v[p] == x);
        assert(forall|q: int| 0 <= q < c.len() && q != p ==> v[q] == c[q]);
        assert(0 <= p < c.len() && v[p] != c[p] && is_nucleotide(v[p]) && (forall|q: int|
            0 <= q < c.len() && q != p ==> v[q] == c[q]));
    }
    if exists|p: int|
        0 <= p < c.len() && v[p] != c[p] && is_nucleotide(v[p]) && (forall|q: int|
            0 <= q < c.len() && q != p ==> v[q] == c[q]) {
        let p = choose|p: int|
            0 <= p < c.len() && v[p] != c[p] && is_nucleotide(v[p]) && (forall|q: int|
                0 <= q < c.len() && q != p ==> v[q] == c[q]);
        assert(v =~= c.update(p, v[p]));
        assert(derives_from(v, c));
    }
}

/// Whether `v` arises from `c` by substituting exactly one position with a
/// different nucleotide letter.
pub fn derives_from_exec(v: &[u8], c: &[u8]) -> (r: bool)
    ensures
        r == derives_from(v@, c@),
{
    if v.len() != c.len() {
        proof {
            if derives_from(v@, c@) {
                let (p, x): (int, u8) = choose|p: int, x: u8|
                    0 <= p < c@.len() && is_nucleotide(x) && x != c@[p] && v@ == c@.update(p, x);
                assert(v@.len() == c@.len());
            }
        }
        return false;
    }
    let mut mismatches: usize = 0;
    let mut first: usize = 0;
    let mut second: usize = 0;
    let mut i: usize = 0;
    while i < v.len()
        invariant
            v@.len() == c@.len(),
            i <= v@.len(),
            mismatches == 0 ==> forall|q: int| 0 <= q < i ==> v@[q] == c@[q],
            mismatches == 1 ==> 0 <= first < i && v@[first as int] != c@[first as int] && (forall|
                q: int,
            |
                0 <= q < i && q != first ==> v@[q] == c@[q]),
            mismatches >= 2 ==> 0 <= first < i && second < i && first != second
                && v@[first as int] != c@[first as int] && v@[second as int] != c@[second as int],
        decreases v@.len() - i,
    {
        if v[i] != c[i] {
            if mismatches == 0 {
                first = i;
            } else if mismatches == 1 {
                second = i;
            }
            if mismatches < 2 {
                mismatches = mismatches + 1;
            }
        }
        i = i + 1;
    }
    proof {
        lemma_derives_characterization(v@, c@);
    }
    mismatches == 1 && is_nucleotide_byte(v[first])
}

} // verus!
