//! The collection: an ordered id-to-document store, an id allocator, and a
//! registry of named per-field secondary indices, kept consistent with the
//! stored documents on every insert.

use crate::datatypes::{DataType, DataTypeView};
use crate::document::Document;
use crate::index::{bucket_push, spec_data_hash, Index};
use crate::kvlist::{assoc_map, lemma_assoc_map_at, lemma_assoc_map_domain, lemma_assoc_map_push,
    lemma_assoc_map_update, unique_keys};
use crate::query_executor::{candidate_ids, documents_match_candidates, lemma_candidates_in_store};
use crate::query_ingestor::spec_ingest;
use crate::query_proc::{process_query, QueryResult};
use vstd::prelude::*;

verus! {

/// The ordered document store: document with id `k` is the `k`-th ever
/// inserted, so ids start at 1, grow by 1 per insert, are never reused, and
/// iteration order over ids equals insertion order.
pub struct Store {
    docs: Vec<Document>,
}

impl View for Store {
    type V = Seq<Map<Seq<char>, DataTypeView>>;

    open spec fn view(&self) -> Seq<Map<Seq<char>, DataTypeView>> {
        self.docs_spec().map_values(|d: Document| d@)
    }
}

impl Store {
    /// The stored documents, in insertion order, at the specification
    /// level.
    pub closed spec fn docs_spec(&self) -> Seq<Document> {
        self.docs@
    }

    /// Every stored document keeps its field names unique.
    pub open spec fn wf(&self) -> bool {
        forall|i: int| 0 <= i < self.docs_spec().len() ==> (#[trigger] self.docs_spec()[i]).wf()
    }

    /// An id resolves to a document exactly when it lies in `1..=len`.
    pub open spec fn contains_id(&self, id: usize) -> bool {
        1 <= id <= self@.len()
    }

    /// Produces a new, empty store.
    pub fn new() -> (r: Store)
        ensures
            r@ == Seq::<Map<Seq<char>, DataTypeView>>::empty(),
            r.wf(),
    {
        let r = Store { docs: Vec::new() };
        proof {
            assert(r@ =~= Seq::<Map<Seq<char>, DataTypeView>>::empty());
        }
        r
    }

    /// The number of stored documents.
    pub fn len(&self) -> (n: usize)
        ensures
            n == self@.len(),
    {
        self.docs.len()
    }

    /// Resolves an id to its document, or `None` when no document carries
    /// the id.
    pub fn get(&self, id: usize) -> (r: Option<&Document>)
        ensures
            match r {
                Some(d) => self.contains_id(id) && d@ == self@[id - 1] && (self.wf() ==> d.wf()),
                None => !self.contains_id(id),
            },
    {
        if id >= 1 && id <= self.docs.len() {
            Some(&self.docs[id - 1])
        } else {
            None
        }
    }

    /// Appends a document under the next id.
    pub fn push_doc(&mut self, d: Document)
        requires
            old(self).wf(),
            d.wf(),
        ensures
            final(self).wf(),
            final(self)@ == old(self)@.push(d@),
    {
        let ghost dv = d@;
        self.docs.push(d);
        proof {
            assert(self@ =~= old(self)@.push(dv));
        }
    }
}

/// What adding one indexed field does to the registry's mapping: when the
/// field has a registered index, the id is filed in that index under the
/// value's hash; when it has none, nothing changes.
pub open spec fn spec_add_id(
    indices: Map<Seq<char>, Map<u64, Seq<usize>>>,
    field: Seq<char>,
    value: DataTypeView,
    id: usize,
) -> Map<Seq<char>, Map<u64, Seq<usize>>> {
    if indices.contains_key(field) {
        indices.insert(field, bucket_push(indices[field], spec_data_hash(value), id))
    } else {
        indices
    }
}

/// What inserting a document under `id` does to the registry: its fields
/// are filed one by one, in the document's field order.
pub open spec fn spec_insert_updates(
    indices: Map<Seq<char>, Map<u64, Seq<usize>>>,
    entries: Seq<(Seq<char>, DataTypeView)>,
    id: usize,
) -> Map<Seq<char>, Map<u64, Seq<usize>>>
    decreases entries.len(),
{
    if entries.len() == 0 {
        indices
    } else {
        spec_add_id(
            spec_insert_updates(indices, entries.drop_last(), id),
            entries.last().0,
            entries.last().1,
            id,
        )
    }
}

/// The registry of named secondary indices: field name to index.
pub struct Indices {
    entries: Vec<(String, Index)>,
}

impl View for Indices {
    type V = Map<Seq<char>, Map<u64, Seq<usize>>>;

    open spec fn view(&self) -> Map<Seq<char>, Map<u64, Seq<usize>>> {
        assoc_map(self.entries_spec())
    }
}

impl Indices {
    /// The registry's entries at the specification level.
    pub closed spec fn entries_spec(&self) -> Seq<(Seq<char>, Map<u64, Seq<usize>>)> {
        self.entries@.map_values(|p: (String, Index)| (p.0@, p.1@))
    }

    /// Field names are unique and every index is well formed.
    pub closed spec fn wf(&self) -> bool {
        &&& unique_keys(self.entries_spec())
        &&& forall|i: int| 0 <= i < self.entries@.len() ==> (#[trigger] self.entries@[i]).1.wf()
    }

    /// Produces a new, empty registry.
    pub fn new() -> (r: Indices)
        ensures
            r@ == Map::<Seq<char>, Map<u64, Seq<usize>>>::empty(),
            r.wf(),
    {
        let r = Indices { entries: Vec::new() };
        proof {
            assert(r.entries_spec() =~= Seq::<(Seq<char>, Map<u64, Seq<usize>>)>::empty());
        }
        r
    }

    /// Looks the index registered for a field up.
    #[verifier::loop_isolation(false)]
    pub fn get(&self, field: &String) -> (r: Option<&Index>)
        requires
            self.wf(),
        ensures
            match r {
                Some(index) => self@.contains_key(field@) && index@ == self@[field@]
                    && index.wf(),
                None => !self@.contains_key(field@),
            },
    {
        let mut i: usize = 0;
        while i < self.entries.len()
            invariant
                i <= self.entries.len(),
                self.entries.len() == self.entries_spec().len(),
                forall|j: int| 0 <= j < i ==> (#[trigger] self.entries_spec()[j]).0 != field@,
            decreases self.entries.len() - i,
        {
            if self.entries[i].0 == *field {
                proof {
                    lemma_assoc_map_at(self.entries_spec(), i as int);
                }
                return Some(&self.entries[i].1);
            }
            i += 1;
        }
        proof {
            lemma_assoc_map_domain(self.entries_spec(), field@);
        }
        None
    }

    /// Registers an empty index for a field. A field already registered
    /// keeps its index unchanged.
    #[verifier::loop_isolation(false)]
    pub fn register(&mut self, field: String)
        requires
            old(self).wf(),
        ensures
            final(self).wf(),
            final(self)@ == if old(self)@.contains_key(field@) {
                old(self)@
            } else {
                old(self)@.insert(field@, Map::<u64, Seq<usize>>::empty())
            },
    {
        let ghost entries0 = self.entries_spec();
        let mut i: usize = 0;
        while i < self.entries.len()
            invariant
                self.entries_spec() == entries0,
                i <= entries0.len(),
                self.entries.len() == entries0.len(),
                forall|j: int| 0 <= j < i ==> (#[trigger] entries0[j]).0 != field@,
            decreases self.entries.len() - i,
        {
            if self.entries[i].0 == field {
                proof {
                    lemma_assoc_map_domain(entries0, field@);
                    assert(entries0[i as int].0 == field@);
                }
                return ;
            }
            i += 1;
        }
        proof {
            lemma_assoc_map_domain(entries0, field@);
        }
        let ghost fv = field@;
        let empty_index = Index::new();
        self.entries.push((field, empty_index));
        proof {
            assert(self.entries_spec() =~= entries0.push((fv, Map::<u64, Seq<usize>>::empty())));
            lemma_assoc_map_push(entries0, fv, Map::<u64, Seq<usize>>::empty());
            assert(forall|j: int|
                0 <= j < entries0.len() ==> self.entries@[j] == old(self).entries@[j]);
        }
    }

    /// Files a document id in the index registered for a field, under the
    /// field value's hash. A field with no registered index is left alone.
    #[verifier::loop_isolation(false)]
    pub fn add_id(&mut self, field: &String, value: &DataType, id: usize)
        requires
            old(self).wf(),
        ensures
            final(self).wf(),
            final(self)@ == spec_add_id(old(self)@, field@, value@, id),
    {
        let ghost entries0 = self.entries_spec();
        let mut i: usize = 0;
        while i < self.entries.len()
            invariant
                self.entries_spec() == entries0,
                self.entries@ == old(self).entries@,
                i <= entries0.len(),
                self.entries.len() == entries0.len(),
                forall|j: int| 0 <= j < i ==> (#[trigger] entries0[j]).0 != field@,
            decreases self.entries.len() - i,
        {
            if self.entries[i].0 == *field {
                proof {
                    lemma_assoc_map_at(entries0, i as int);
                }
                let slot = vstd::std_specs::vec::vec_index_mut(&mut self.entries, i);
                slot.1.insert(value, id);
                proof {
                    assert(self.entries_spec() =~= entries0.update(
                        i as int,
                        (entries0[i as int].0, bucket_push(entries0[i as int].1, spec_data_hash(value@), id)),
                    ));
                    lemma_assoc_map_update(
                        entries0,
                        i as int,
                        bucket_push(entries0[i as int].1, spec_data_hash(value@), id),
                    );
                }
                return ;
            }
            i += 1;
        }
        proof {
            lemma_assoc_map_domain(entries0, field@);
        }
    }
}

/// Every id filed in any index bucket resolves to a stored document that
/// carries the indexed field, with a value hashing to the bucket's key.
/// This is the consistency that makes an index bucket a sound candidate
/// set, and insert maintains it for every registered index.
pub open spec fn indices_consistent(
    indices: Map<Seq<char>, Map<u64, Seq<usize>>>,
    store: Seq<Map<Seq<char>, DataTypeView>>,
) -> bool {
    forall|f: Seq<char>, h: u64, k: int|
        indices.contains_key(f) && indices[f].contains_key(h) && 0 <= k < indices[f][h].len()
            ==> {
            let id = #[trigger] indices[f][h][k];
            &&& 1 <= id <= store.len()
            &&& store[id - 1].contains_key(f)
            &&& spec_data_hash(store[id - 1][f]) == h
        }
}

/// Filing a new document's fields keeps the registry consistent with the
/// store extended by that document.
proof fn lemma_updates_consistent(
    indices: Map<Seq<char>, Map<u64, Seq<usize>>>,
    store: Seq<Map<Seq<char>, DataTypeView>>,
    doc: Map<Seq<char>, DataTypeView>,
    entries: Seq<(Seq<char>, DataTypeView)>,
    id: usize,
)
    requires
        indices_consistent(indices, store),
        id == store.len() + 1,
        forall|j: int| 0 <= j < entries.len() ==> doc.contains_key((#[trigger] entries[j]).0)
            && doc[entries[j].0] == entries[j].1,
    ensures
        indices_consistent(spec_insert_updates(indices, entries, id), store.push(doc)),
    decreases entries.len(),
{
    let bigger = store.push(doc);
    if entries.len() == 0 {
        assert(indices_consistent(indices, bigger)) by {
            assert(forall|i: int| 0 <= i < store.len() ==> bigger[i] == store[i]);
        }
    } else {
        let prefix = entries.drop_last();
        assert(forall|j: int|
            0 <= j < prefix.len() ==> #[trigger] prefix[j] == entries[j]);
        lemma_updates_consistent(indices, store, doc, prefix, id);
        let m = spec_insert_updates(indices, prefix, id);
        let f = entries.last().0;
        let v = entries.last().1;
        let result = spec_add_id(m, f, v, id);
        if m.contains_key(f) {
            let h = spec_data_hash(v);
            let old_bucket = if m[f].contains_key(h) {
                m[f][h]
            } else {
                Seq::<usize>::empty()
            };
            assert(bigger[id - 1] == doc);
            assert(indices_consistent(result, bigger)) by {
                assert forall|f2: Seq<char>, h2: u64, k2: int|
                    result.contains_key(f2) && result[f2].contains_key(h2) && 0 <= k2
                        < result[f2][h2].len() implies {
                    let id2 = #[trigger] result[f2][h2][k2];
                    &&& 1 <= id2 <= bigger.len()
                    &&& bigger[id2 - 1].contains_key(f2)
                    &&& spec_data_hash(bigger[id2 - 1][f2]) == h2
                } by {
                    if f2 == f && h2 == h {
                        if k2 < result[f2][h2].len() - 1 {
                            assert(result[f2][h2][k2] == m[f][h][k2]);
                        } else {
                            assert(result[f2][h2][k2] == id);
                        }
                    } else {
                        assert(result[f2][h2][k2] == m[f2][h2][k2]);
                    }
                }
            }
        }
    }
}

/// A collection: an ordered id-to-document store, the id allocator, and
/// the registry of per-field secondary indices, all kept consistent.
pub struct Collection {
    /// The collection's name, an opaque handle chosen by the caller.
    pub name: String,
    store: Store,
    last_key: usize,
    indices: Indices,
}

impl Collection {
    /// The stored documents, in insertion order; the document with id `k`
    /// is at position `k - 1`.
    pub closed spec fn spec_store(&self) -> Seq<Map<Seq<char>, DataTypeView>> {
        self.store@
    }

    /// The registered indices: field name to index mapping.
    pub closed spec fn spec_indices(&self) -> Map<Seq<char>, Map<u64, Seq<usize>>> {
        self.indices@
    }

    /// The collection's name.
    pub closed spec fn spec_name(&self) -> Seq<char> {
        self.name@
    }

    /// The number of stored documents, which equals the last assigned id.
    pub open spec fn spec_len(&self) -> nat {
        self.spec_store().len()
    }

    /// The collection's invariant: the id allocator equals the number of
    /// stored documents, documents and indices are well formed, and every
    /// index bucket points only at stored documents that carry the indexed
    /// field with a matching value hash.
    pub closed spec fn wf(&self) -> bool {
        &&& self.last_key == self.store@.len()
        &&& self.store.wf()
        &&& self.indices.wf()
        &&& indices_consistent(self.indices@, self.store@)
    }

    /// Produces a new, empty collection with the given name.
    pub fn new(name: String) -> (r: Collection)
        ensures
            r.wf(),
            r.spec_name() == name@,
            r.spec_store() == Seq::<Map<Seq<char>, DataTypeView>>::empty(),
            r.spec_indices() == Map::<Seq<char>, Map<u64, Seq<usize>>>::empty(),
    {
        Collection { name, store: Store::new(), last_key: 0, indices: Indices::new() }
    }

    /// Registers a secondary index on a field: lookups on that field are
    /// then answered from the index rather than by a full scan. A field
    /// already registered keeps its index. Documents inserted from now on
    /// are filed in it; documents already stored are not backfilled.
    pub fn register_index(&mut self, field: String)
        requires
            old(self).wf(),
        ensures
            final(self).wf(),
            final(self).spec_name() == old(self).spec_name(),
            final(self).spec_store() == old(self).spec_store(),
            final(self).spec_indices() == if old(self).spec_indices().contains_key(field@) {
                old(self).spec_indices()
            } else {
                old(self).spec_indices().insert(field@, Map::<u64, Seq<usize>>::empty())
            },
    {
        self.indices.register(field);
    }

    /// Inserts a document and returns its newly assigned id: one more than
    /// the last assigned id, so sequential inserts yield `1, 2, 3, ...` and
    /// an id is never reused. Every field of the document that has a
    /// registered index is filed in that index under the field value's
    /// hash, transactionally with the document write.
    #[verifier::loop_isolation(false)]
    pub fn insert(&mut self, value: Document) -> (id: usize)
        requires
            old(self).wf(),
            value.wf(),
            old(self).spec_len() < usize::MAX,
        ensures
            final(self).wf(),
            id == old(self).spec_len() + 1,
            final(self).spec_name() == old(self).spec_name(),
            final(self).spec_store() == old(self).spec_store().push(value@),
            final(self).spec_indices() == spec_insert_updates(
                old(self).spec_indices(),
                value.entries(),
                id,
            ),
    {
        let id = self.last_key + 1;
        let ghost doc_entries = value.entries();
        let n = value.num_fields();
        let mut i: usize = 0;
        while i < n
            invariant
                i <= n,
                self.store == old(self).store,
                self.last_key == old(self).last_key,
                self.name == old(self).name,
                self.indices.wf(),
                self.indices@ == spec_insert_updates(
                    old(self).spec_indices(),
                    doc_entries.take(i as int),
                    id,
                ),
            decreases n - i,
        {
            let (field, field_value) = value.entry_at(i);
            self.indices.add_id(field, field_value, id);
            proof {
                assert(doc_entries.take(i + 1).drop_last() =~= doc_entries.take(i as int));
                assert(doc_entries.take(i + 1).last() == doc_entries[i as int]);
            }
            i += 1;
        }
        proof {
            assert(doc_entries.take(n as int) =~= doc_entries);
            assert(forall|j: int|
                0 <= j < doc_entries.len() ==> value@.contains_key((#[trigger] doc_entries[j]).0)
                    && value@[doc_entries[j].0] == doc_entries[j].1) by {
                assert forall|j: int| 0 <= j < doc_entries.len() implies value@.contains_key(
                    (#[trigger] doc_entries[j]).0,
                ) && value@[doc_entries[j].0] == doc_entries[j].1 by {
                    lemma_assoc_map_at(doc_entries, j);
                }
            }
            lemma_updates_consistent(
                old(self).spec_indices(),
                old(self).spec_store(),
                value@,
                doc_entries,
                id,
            );
        }
        self.store.push_doc(value);
        self.last_key = id;
        id
    }

    /// The number of stored documents, which equals the last assigned id.
    pub fn len(&self) -> (n: usize)
        ensures
            n == self.spec_len(),
    {
        self.store.len()
    }

    /// Produces the results of a query against the collection: the query
    /// text is tokenized and parsed into equality predicates, the
    /// predicates are evaluated against the store and its indices, and
    /// the matching documents are returned in ascending id order.
    /// Malformed query text yields `InvalidQueryError`. On a well-formed
    /// collection the result is never `InvalidIdError`: the collection's
    /// invariant keeps every index bucket consistent with the store.
    pub fn find(&self, query: &String) -> (r: QueryResult)
        requires
            self.wf(),
        ensures
            !(r is InvalidIdError),
            match r {
                QueryResult::InvalidQueryError => spec_ingest(query@) is None,
                QueryResult::Data(docs) => {
                    &&& spec_ingest(query@) is Some
                    &&& documents_match_candidates(
                        docs@,
                        candidate_ids(
                            spec_ingest(query@).unwrap(),
                            self.spec_store(),
                            self.spec_indices(),
                        ),
                        self.spec_store(),
                    )
                },
                QueryResult::InvalidIdError => false,
            },
    {
        let r = process_query(query, &self.store, &self.indices);
        proof {
            if spec_ingest(query@) is Some {
                lemma_candidates_in_store(spec_ingest(query@).unwrap(), self.store@, self.indices@);
            }
        }
        r
    }
}

/// Sequential inserts yield consecutive ids in call order, and an id is
/// never reused. Inserting into a collection that holds `n` documents is
/// ensured to assign id `n + 1` and grow the store by one, so a second
/// insert assigns `n + 2`. Each assigned id exceeds every id assigned
/// before it, every document already stored is left untouched, and both
/// inserted documents still stand under their ids afterwards — no later
/// insert ever reassigns an id. The hypotheses are exactly what two
/// consecutive calls of [`Collection::insert`] ensure.
pub proof fn lemma_ids_sequential(
    c0: Collection,
    c1: Collection,
    d1: Document,
    id1: usize,
    c2: Collection,
    d2: Document,
    id2: usize,
)
    requires
        id1 == c0.spec_len() + 1,
        c1.spec_store() == c0.spec_store().push(d1@),
        id2 == c1.spec_len() + 1,
        c2.spec_store() == c1.spec_store().push(d2@),
    ensures
        id2 == id1 + 1,
        c0.spec_len() < id1 < id2,
        forall|k: int|
            1 <= k <= c0.spec_len() ==> #[trigger] c2.spec_store()[k - 1] == c0.spec_store()[k
                - 1],
        c2.spec_store()[id1 - 1] == d1@,
        c2.spec_store()[id2 - 1] == d2@,
{
}

} // verus!
