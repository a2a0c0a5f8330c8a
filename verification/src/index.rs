//! The secondary index: a single-field inverted index mapping a hashed key
//! to the ordered list of document ids inserted under that key.
//!
//! No original key is retained, only its hash: a lookup therefore yields
//! *candidate* ids, and two distinct keys that hash identically share a
//! bucket. Callers that need exactness must re-verify the field value on
//! the documents a bucket names.

use crate::datatypes::{DataType, DataTypeView};
use crate::kvlist::{assoc_map, lemma_assoc_map_at, lemma_assoc_map_domain, lemma_assoc_map_push,
    lemma_assoc_map_update, unique_keys};
use std::collections::hash_map::DefaultHasher;
use std::hash::Hash;
use std::hash::Hasher;
use vstd::prelude::*;
use vstd::std_specs::hash::DefaultHasherAdditionalSpecFns;

verus! {

/// The write calls that hashing a string performs on a hasher, as a
/// function of the string's characters.
pub uninterp spec fn str_hash_writes(s: Seq<char>) -> Seq<Seq<u8>>;

/// The write calls that hashing a field value performs on a hasher, as a
/// function of the value.
pub uninterp spec fn data_hash_writes(v: DataTypeView) -> Seq<Seq<u8>>;

/// Relies on `<String as Hash>::hash`: the bytes a string feeds the hasher
/// are a function of its characters alone.
#[verifier::external_body]
fn write_string_hash(key: &String, state: &mut DefaultHasher)
    ensures
        final(state)@ == old(state)@ + str_hash_writes(key@),
{
    key.hash(state);
}

/// Relies on `<DataType as Hash>::hash` (the derived implementation): the
/// bytes a field value feeds the hasher are a function of the value alone.
#[verifier::external_body]
fn write_data_hash(key: &DataType, state: &mut DefaultHasher)
    ensures
        final(state)@ == old(state)@ + data_hash_writes(key@),
{
    key.hash(state);
}

/// The stable hash of a string key.
pub open spec fn spec_string_hash(s: Seq<char>) -> u64 {
    DefaultHasher::spec_finish(str_hash_writes(s))
}

/// The stable hash of a field-value key.
pub open spec fn spec_data_hash(v: DataTypeView) -> u64 {
    DefaultHasher::spec_finish(data_hash_writes(v))
}

/// A type that can key an index entry: it can be hashed, and the hash is a
/// function of the key's mathematical value.
pub trait IndexKey {
    /// The hash the key maps to.
    spec fn key_hash(&self) -> u64;

    /// Computes the key's hash.
    fn hash_key(&self) -> (r: u64)
        ensures
            r == self.key_hash(),
    ;
}

impl IndexKey for String {
    open spec fn key_hash(&self) -> u64 {
        spec_string_hash(self@)
    }

    fn hash_key(&self) -> (r: u64) {
        let mut state = DefaultHasher::new();
        write_string_hash(self, &mut state);
        proof {
            assert(Seq::<Seq<u8>>::empty() + str_hash_writes(self@) =~= str_hash_writes(self@));
        }
        state.finish()
    }
}

impl IndexKey for DataType {
    open spec fn key_hash(&self) -> u64 {
        spec_data_hash(self@)
    }

    fn hash_key(&self) -> (r: u64) {
        let mut state = DefaultHasher::new();
        write_data_hash(self, &mut state);
        proof {
            assert(Seq::<Seq<u8>>::empty() + data_hash_writes(self@) =~= data_hash_writes(self@));
        }
        state.finish()
    }
}

/// Computes the stable hash of a key.
pub fn calculate_hash<T: IndexKey>(t: &T) -> (r: u64)
    ensures
        r == t.key_hash(),
{
    t.hash_key()
}

/// What inserting an id under a hash does to an index's mapping: the id is
/// appended to the hash's bucket, which is created if absent. Duplicate
/// ids are kept; bucket order is insertion order.
pub open spec fn bucket_push(tree: Map<u64, Seq<usize>>, h: u64, id: usize) -> Map<
    u64,
    Seq<usize>,
> {
    tree.insert(
        h,
        if tree.contains_key(h) {
            tree[h].push(id)
        } else {
            seq![id]
        },
    )
}

/// A single-field inverted index: a mapping from hashed key to the ordered
/// list of document ids inserted under that key.
#[derive(Debug)]
pub struct Index {
    tree: Vec<(u64, Vec<usize>)>,
}

impl View for Index {
    type V = Map<u64, Seq<usize>>;

    open spec fn view(&self) -> Map<u64, Seq<usize>> {
        assoc_map(self.entries())
    }
}

impl Index {
    /// The index's entries at the specification level.
    pub closed spec fn entries(&self) -> Seq<(u64, Seq<usize>)> {
        self.tree@.map_values(|p: (u64, Vec<usize>)| (p.0, p.1@))
    }

    /// Each hash occurs at most once in the entry list.
    pub closed spec fn wf(&self) -> bool {
        unique_keys(self.entries())
    }

    /// Produces a new, empty index.
    pub fn new() -> (r: Index)
        ensures
            r@ == Map::<u64, Seq<usize>>::empty(),
            r.wf(),
    {
        let r = Index { tree: Vec::new() };
        proof {
            assert(r.entries() =~= Seq::<(u64, Seq<usize>)>::empty());
        }
        r
    }

    /// Adds a key and its associated document id to the index, and returns
    /// the hash the key was filed under. The id is appended to the key's
    /// bucket, so bucket order is insertion order and duplicates are kept.
    #[verifier::loop_isolation(false)]
    pub fn insert<T: IndexKey>(&mut self, key: &T, value: usize) -> (h: u64)
        requires
            old(self).wf(),
        ensures
            h == key.key_hash(),
            final(self).wf(),
            final(self)@ == bucket_push(old(self)@, key.key_hash(), value),
    {
        let hash_key = calculate_hash(key);
        let ghost entries0 = self.entries();
        let mut i: usize = 0;
        while i < self.tree.len()
            invariant
                self.entries() == entries0,
                unique_keys(entries0),
                i <= entries0.len(),
                self.tree.len() == entries0.len(),
                forall|j: int| 0 <= j < i ==> (#[trigger] entries0[j]).0 != hash_key,
            decreases self.tree.len() - i,
        {
            if self.tree[i].0 == hash_key {
                proof {
                    lemma_assoc_map_at(entries0, i as int);
                }
                let slot = vstd::std_specs::vec::vec_index_mut(&mut self.tree, i);
                slot.1.push(value);
                proof {
                    assert(self.entries() =~= entries0.update(
                        i as int,
                        (hash_key, entries0[i as int].1.push(value)),
                    ));
                    lemma_assoc_map_update(entries0, i as int, entries0[i as int].1.push(value));
                }
                return hash_key;
            }
            i += 1;
        }
        proof {
            lemma_assoc_map_domain(entries0, hash_key);
        }
        let mut bucket: Vec<usize> = Vec::new();
        bucket.push(value);
        self.tree.push((hash_key, bucket));
        proof {
            assert(self.entries() =~= entries0.push((hash_key, seq![value])));
            lemma_assoc_map_push(entries0, hash_key, seq![value]);
        }
        hash_key
    }

    /// Produces all candidate ids filed under the search key's hash, in
    /// insertion order, or `None` when no key with that hash was ever
    /// inserted. A hit is a candidate, not a proof of equality: two
    /// distinct keys may share a hash.
    #[verifier::loop_isolation(false)]
    pub fn search<T: IndexKey>(&self, key: &T) -> (r: Option<&Vec<usize>>)
        requires
            self.wf(),
        ensures
            match r {
                Some(ids) => self@.contains_key(key.key_hash()) && ids@ == self@[key.key_hash()],
                None => !self@.contains_key(key.key_hash()),
            },
    {
        let hash_key = calculate_hash(key);
        let mut i: usize = 0;
        while i < self.tree.len()
            invariant
                self.wf(),
                i <= self.tree.len(),
                self.tree.len() == self.entries().len(),
                forall|j: int| 0 <= j < i ==> (#[trigger] self.entries()[j]).0 != hash_key,
            decreases self.tree.len() - i,
        {
            if self.tree[i].0 == hash_key {
                proof {
                    lemma_assoc_map_at(self.entries(), i as int);
                }
                return Some(&self.tree[i].1);
            }
            i += 1;
        }
        proof {
            lemma_assoc_map_domain(self.entries(), hash_key);
        }
        None
    }
}

impl Default for Index {
    fn default() -> (r: Self)
        ensures
            r@ == Map::<u64, Seq<usize>>::empty(),
            r.wf(),
    {
        Index::new()
    }
}

/// Inserting under a key files the id in the bucket named by that key's
/// hash: searching the same key afterwards finds a bucket that ends with
/// the id. Two inserts under one key keep both ids, in insertion order.
pub proof fn lemma_insert_then_search(tree: Map<u64, Seq<usize>>, h: u64, id1: usize, id2: usize)
    ensures
        bucket_push(tree, h, id1).contains_key(h),
        bucket_push(tree, h, id1)[h].last() == id1,
        bucket_push(bucket_push(tree, h, id1), h, id2)[h].last() == id2,
        bucket_push(bucket_push(tree, h, id1), h, id2)[h].drop_last().last() == id1,
{
}

} // verus!
