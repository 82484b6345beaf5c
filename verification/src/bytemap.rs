//! Trusted interface to hashbrown's hash map and hash set, keyed by byte
//! sequences, as the dictionary's lookup table and the run whitelist use
//! them. hashbrown's `HashMap` and `HashSet` carry hash-builder and allocator
//! type parameters that Verus does not accept in a type declaration, so each
//! collection sits in a private field of an opaque struct, its contents named
//! by an uninterpreted function that the trusted methods' contracts share.

use vstd::prelude::*;

verus! {

/// A hash map from byte strings to indices, backed by `hashbrown::HashMap`.
#[verifier::external_body]
#[derive(Debug)]
pub struct ByteMap {
    inner: hashbrown::HashMap<Vec<u8>, usize>,
}

/// The entries that a `ByteMap` holds.
pub uninterp spec fn byte_map_model(m: ByteMap) -> Map<Seq<u8>, usize>;

/// The empty table.
pub open spec fn empty_byte_map() -> Map<Seq<u8>, usize> {
    Map::empty()
}

/// A set of byte strings, backed by `hashbrown::HashSet`.
#[verifier::external_body]
#[derive(Debug)]
pub struct ByteSet {
    inner: hashbrown::HashSet<Vec<u8>>,
}

/// The elements that a `ByteSet` holds.
pub uninterp spec fn byte_set_model(s: ByteSet) -> Set<Seq<u8>>;

impl ByteMap {
    /// Relies on `hashbrown::HashMap::new`: the new map is empty.
    #[verifier::external_body]
    pub fn new() -> (r: ByteMap)
        ensures
            byte_map_model(r) == empty_byte_map(),
    {
        ByteMap { inner: hashbrown::HashMap::new() }
    }

    /// Relies on `hashbrown::HashMap::insert`: the key now maps to the value,
    /// other entries are untouched.
    #[verifier::external_body]
    pub fn insert(&mut self, key: Vec<u8>, value: usize)
        ensures
            byte_map_model(*final (self)) == byte_map_model(*old(self)).insert(key@, value),
    {
        self.inner.insert(key, value);
    }

    /// Relies on `hashbrown::HashMap::get`: the value stored under the key,
    /// or nothing if the key is absent.
    #[verifier::external_body]
    pub fn get(&self, key: &[u8]) -> (r: Option<usize>)
        ensures
            r == if byte_map_model(*self).contains_key(key@) {
                Some(byte_map_model(*self)[key@])
            } else {
                None::<usize>
            },
    {
        self.inner.get(key).copied()
    }

    /// Relies on `hashbrown::HashMap::len`: the number of entries.
    #[verifier::external_body]
    pub fn len(&self) -> (r: usize)
        ensures
            r == byte_map_model(*self).dom().len(),
    {
        self.inner.len()
    }
}

impl ByteSet {
    /// Relies on `hashbrown::HashSet::new`: the new set is empty.
    #[verifier::external_body]
    pub fn new() -> (r: ByteSet)
        ensures
            byte_set_model(r) == Set::<Seq<u8>>::empty(),
    {
        ByteSet { inner: hashbrown::HashSet::new() }
    }

    /// Relies on `hashbrown::HashSet::insert`: the element is now present,
    /// other elements are untouched, and the result says whether it was new.
    #[verifier::external_body]
    pub fn insert(&mut self, value: Vec<u8>) -> (r: bool)
        ensures
            byte_set_model(*final (self)) == byte_set_model(*old(self)).insert(value@),
            r == !byte_set_model(*old(self)).contains(value@),
    {
        self.inner.insert(value)
    }

    /// Relies on `hashbrown::HashSet::len`: the number of elements.
    #[verifier::external_body]
    pub fn len(&self) -> (r: usize)
        ensures
            r == byte_set_model(*self).len(),
    {
        self.inner.len()
    }

    /// Relies on `hashbrown::HashSet::iter`: every element is yielded exactly
    /// once, in an unspecified order.
    #[verifier::external_body]
    pub fn to_vec(&self) -> (r: Vec<Vec<u8>>)
        ensures
            r@.len() == byte_set_model(*self).len(),
            forall|i: int| 0 <= i < r@.len() ==> byte_set_model(*self).contains(r@[i]@),
            forall|i: int, j: int| 0 <= i < j < r@.len() ==> r@[i]@ != r@[j]@,
    {
        self.inner.iter().cloned().collect()
    }
}

} // verus!
