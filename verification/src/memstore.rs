//! The legacy single-value store: an ordered map from numeric key to raw
//! string value, with an auto-incrementing key allocator. It predates the
//! document engine and keeps its simpler create/read/update/delete and
//! range-listing semantics.

use crate::errors::{KeyNotFoundError, RangeError};
use crate::kvlist::{assoc_map, lemma_assoc_map_at, lemma_assoc_map_domain, lemma_assoc_map_push,
    lemma_assoc_map_remove, lemma_assoc_map_update, unique_keys};
use vstd::prelude::*;

verus! {

/// When a listing asks for no particular count, at most this many entries
/// are returned.
pub const DEFAULT_LIST_COUNT: usize = 99;

/// The entries a listing yields: walking the store's entries in key
/// order, keep those with key at least `start`, until `room` entries have
/// been kept.
pub open spec fn list_selection(
    entries: Seq<(usize, Seq<char>)>,
    start: usize,
    room: int,
) -> Seq<(usize, Seq<char>)>
    decreases entries.len(),
{
    if entries.len() == 0 || room <= 0 {
        Seq::empty()
    } else {
        let head = entries.first();
        if head.0 >= start {
            seq![head] + list_selection(entries.drop_first(), start, room - 1)
        } else {
            list_selection(entries.drop_first(), start, room)
        }
    }
}

/// The pairs a vector of keyed strings stands for.
pub open spec fn pair_views(s: Seq<(usize, String)>) -> Seq<(usize, Seq<char>)> {
    s.map_values(|p: (usize, String)| (p.0, p.1@))
}

/// An ordered key-to-string store with an auto-incrementing key
/// allocator. Keys start at 1; deleting a key never frees it for reuse.
pub struct MemStore {
    store: Vec<(usize, String)>,
    last_key: usize,
}

impl View for MemStore {
    type V = Map<usize, Seq<char>>;

    open spec fn view(&self) -> Map<usize, Seq<char>> {
        assoc_map(self.entries())
    }
}

impl MemStore {
    /// The store's entries in ascending key order, at the specification
    /// level.
    pub closed spec fn entries(&self) -> Seq<(usize, Seq<char>)> {
        self.store@.map_values(|p: (usize, String)| (p.0, p.1@))
    }

    /// The highest key ever assigned; fresh keys are allocated above it.
    pub closed spec fn spec_last_key(&self) -> usize {
        self.last_key
    }

    /// Keys are strictly ascending and none exceeds the allocator's
    /// high-water mark.
    pub open spec fn wf(&self) -> bool {
        &&& forall|i: int, j: int|
            0 <= i < j < self.entries().len() ==> (#[trigger] self.entries()[i]).0 < (
            #[trigger] self.entries()[j]).0
        &&& forall|i: int|
            0 <= i < self.entries().len() ==> 1 <= (#[trigger] self.entries()[i]).0
                <= self.spec_last_key()
    }

    /// Produces a new, empty store.
    pub fn new() -> (r: MemStore)
        ensures
            r@ == Map::<usize, Seq<char>>::empty(),
            r.entries() == Seq::<(usize, Seq<char>)>::empty(),
            r.spec_last_key() == 0,
            r.wf(),
    {
        let r = MemStore { store: Vec::new(), last_key: 0 };
        proof {
            assert(r.entries() =~= Seq::<(usize, Seq<char>)>::empty());
        }
        r
    }

    /// Ascending keys are unique keys.
    proof fn lemma_wf_unique(&self)
        requires
            self.wf(),
        ensures
            unique_keys(self.entries()),
    {
    }

    /// Looks a key up: the value stored under it, or `None` when the
    /// store holds no such key.
    #[verifier::loop_isolation(false)]
    pub fn get(&self, key: usize) -> (r: Option<&String>)
        requires
            self.wf(),
        ensures
            match r {
                Some(v) => self@.contains_key(key) && v@ == self@[key],
                None => !self@.contains_key(key),
            },
    {
        proof {
            self.lemma_wf_unique();
        }
        let mut i: usize = 0;
        while i < self.store.len()
            invariant
                i <= self.store@.len(),
                self.store@.len() == self.entries().len(),
                forall|j: int| 0 <= j < i ==> (#[trigger] self.entries()[j]).0 != key,
            decreases self.store@.len() - i,
        {
            if self.store[i].0 == key {
                proof {
                    lemma_assoc_map_at(self.entries(), i as int);
                }
                return Some(&self.store[i].1);
            }
            i += 1;
        }
        proof {
            lemma_assoc_map_domain(self.entries(), key);
        }
        None
    }

    /// Stores a value under a freshly allocated key — one above the last
    /// assigned key, so keys are handed out as `1, 2, 3, ...` and a
    /// deleted key is never reassigned — and returns that key.
    pub fn post(&mut self, value: String) -> (key: usize)
        requires
            old(self).wf(),
            old(self).spec_last_key() < usize::MAX,
        ensures
            final(self).wf(),
            key == old(self).spec_last_key() + 1,
            final(self).spec_last_key() == key,
            final(self)@ == old(self)@.insert(key, value@),
            final(self).entries() == old(self).entries().push((key, value@)),
    {
        proof {
            self.lemma_wf_unique();
        }
        self.last_key = self.last_key + 1;
        let key = self.last_key;
        let ghost entries0 = self.entries();
        let ghost vv = value@;
        self.store.push((key, value));
        proof {
            assert(self.entries() =~= entries0.push((key, vv)));
            lemma_assoc_map_push(entries0, key, vv);
        }
        key
    }

    /// Replaces the value stored under an existing key; a key the store
    /// does not hold is reported and nothing changes.
    #[verifier::loop_isolation(false)]
    pub fn put(&mut self, key: usize, value: String) -> (r: Result<(), KeyNotFoundError>)
        requires
            old(self).wf(),
        ensures
            final(self).wf(),
            final(self).spec_last_key() == old(self).spec_last_key(),
            match r {
                Ok(()) => old(self)@.contains_key(key) && final(self)@ == old(self)@.insert(
                    key,
                    value@,
                ),
                Err(KeyNotFoundError) => !old(self)@.contains_key(key) && final(self)@ == old(
                    self,
                )@,
            },
    {
        proof {
            self.lemma_wf_unique();
        }
        let ghost entries0 = self.entries();
        let mut i: usize = 0;
        while i < self.store.len()
            invariant
                self.entries() == entries0,
                self.store@ == old(self).store@,
                self.spec_last_key() == old(self).spec_last_key(),
                i <= entries0.len(),
                self.store@.len() == entries0.len(),
                forall|j: int| 0 <= j < i ==> (#[trigger] entries0[j]).0 != key,
            decreases self.store@.len() - i,
        {
            if self.store[i].0 == key {
                proof {
                    lemma_assoc_map_at(entries0, i as int);
                }
                let slot = vstd::std_specs::vec::vec_index_mut(&mut self.store, i);
                slot.1 = value;
                proof {
                    assert(self.entries() =~= entries0.update(
                        i as int,
                        (entries0[i as int].0, value@),
                    ));
                    lemma_assoc_map_update(entries0, i as int, value@);
                    assert(forall|j: int|
                        0 <= j < entries0.len() ==> (#[trigger] self.entries()[j]).0
                            == entries0[j].0);
                }
                return Ok(());
            }
            i += 1;
        }
        proof {
            lemma_assoc_map_domain(entries0, key);
        }
        Err(KeyNotFoundError)
    }

    /// Removes the entry stored under an existing key; a key the store
    /// does not hold is reported and nothing changes.
    #[verifier::loop_isolation(false)]
    pub fn delete(&mut self, key: usize) -> (r: Result<(), KeyNotFoundError>)
        requires
            old(self).wf(),
        ensures
            final(self).wf(),
            final(self).spec_last_key() == old(self).spec_last_key(),
            match r {
                Ok(()) => old(self)@.contains_key(key) && final(self)@ == old(self)@.remove(key),
                Err(KeyNotFoundError) => !old(self)@.contains_key(key) && final(self)@ == old(
                    self,
                )@,
            },
    {
        proof {
            self.lemma_wf_unique();
        }
        let ghost entries0 = self.entries();
        let mut i: usize = 0;
        while i < self.store.len()
            invariant
                self.entries() == entries0,
                self.store@ == old(self).store@,
                self.spec_last_key() == old(self).spec_last_key(),
                i <= entries0.len(),
                self.store@.len() == entries0.len(),
                forall|j: int| 0 <= j < i ==> (#[trigger] entries0[j]).0 != key,
            decreases self.store@.len() - i,
        {
            if self.store[i].0 == key {
                proof {
                    lemma_assoc_map_at(entries0, i as int);
                }
                self.store.remove(i);
                proof {
                    assert(self.entries() =~= entries0.remove(i as int));
                    lemma_assoc_map_remove(entries0, i as int);
                    assert(forall|j: int|
                        0 <= j < self.entries().len() ==> #[trigger] self.entries()[j] == (
                        if j < i {
                            entries0[j]
                        } else {
                            entries0[j + 1]
                        }));
                }
                return Ok(());
            }
            i += 1;
        }
        proof {
            lemma_assoc_map_domain(entries0, key);
        }
        Err(KeyNotFoundError)
    }

    /// Lists up to `count` entries (or [`DEFAULT_LIST_COUNT`] when `count`
    /// is zero) whose keys are at least `start`, in ascending key order.
    /// An empty store lists nothing, whatever `start`; otherwise a
    /// `start` beyond the store's last key is reported as a range error.
    #[verifier::loop_isolation(false)]
    pub fn list(&self, start: usize, count: usize) -> (r: Result<
        Vec<(usize, String)>,
        RangeError,
    >)
        requires
            self.wf(),
        ensures
            ({
                let room = if count == 0 {
                    DEFAULT_LIST_COUNT as int
                } else {
                    count as int
                };
                match r {
                    Ok(results) => (self.entries().len() == 0 || start
                        <= self.entries().last().0) && pair_views(results@) == list_selection(
                        self.entries(),
                        start,
                        room,
                    ),
                    Err(RangeError) => self.entries().len() > 0 && start
                        > self.entries().last().0,
                }
            }),
    {
        if self.store.len() == 0 {
            let results: Vec<(usize, String)> = Vec::new();
            proof {
                assert(pair_views(results@) =~= Seq::<(usize, Seq<char>)>::empty());
            }
            return Ok(results);
        }
        let final_key = self.store[self.store.len() - 1].0;
        if start > final_key {
            return Err(RangeError);
        }
        let computed_count = if count == 0 {
            DEFAULT_LIST_COUNT
        } else {
            count
        };
        let ghost room = computed_count as int;
        let mut results: Vec<(usize, String)> = Vec::new();
        let mut i: usize = 0;
        proof {
            assert(self.entries().skip(0) =~= self.entries());
            assert(pair_views(results@) =~= Seq::<(usize, Seq<char>)>::empty());
            assert(Seq::<(usize, Seq<char>)>::empty() + list_selection(self.entries(), start, room)
                =~= list_selection(self.entries(), start, room));
        }
        while i < self.store.len() && results.len() < computed_count
            invariant
                i <= self.store@.len(),
                self.store@.len() == self.entries().len(),
                results@.len() <= computed_count,
                pair_views(results@) + list_selection(
                    self.entries().skip(i as int),
                    start,
                    room - results@.len(),
                ) =~= list_selection(self.entries(), start, room),
            decreases self.store@.len() - i,
        {
            let ghost acc0 = pair_views(results@);
            let ghost rest = self.entries().skip(i as int);
            proof {
                assert(rest.first() == self.entries()[i as int]);
                assert(rest.drop_first() =~= self.entries().skip(i + 1));
            }
            if self.store[i].0 >= start {
                results.push((self.store[i].0, self.store[i].1.clone()));
                proof {
                    let head = self.entries()[i as int];
                    assert(pair_views(results@) =~= acc0.push(head));
                    assert(acc0.push(head) =~= acc0 + seq![head]);
                    assert((acc0 + seq![head]) + list_selection(
                        self.entries().skip(i + 1),
                        start,
                        room - results@.len(),
                    ) =~= acc0 + (seq![head] + list_selection(
                        self.entries().skip(i + 1),
                        start,
                        room - results@.len(),
                    )));
                }
            }
            i += 1;
        }
        proof {
            if results@.len() < computed_count {
                assert(self.entries().skip(self.entries().len() as int) =~= Seq::<(
                    usize,
                    Seq<char>,
                )>::empty());
            } else {
                assert(list_selection(self.entries().skip(i as int), start, 0) =~= Seq::<(
                    usize,
                    Seq<char>,
                )>::empty());
            }
            assert(pair_views(results@) + Seq::<(usize, Seq<char>)>::empty() =~= pair_views(
                results@,
            ));
        }
        Ok(results)
    }
}

} // verus!
