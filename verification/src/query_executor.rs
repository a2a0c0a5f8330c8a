//! The query executor: state-free evaluation of an ordered list of
//! equality predicates against the store and its indices, producing a
//! candidate id set and then the matching documents.
//!
//! The first predicate seeds the candidate set — from the field's index
//! when one is registered, by a full scan otherwise. Each later predicate
//! on an indexed field intersects the candidate set with that field's
//! bucket; a later predicate on an unindexed field adds no filtering (a
//! documented limitation). Results are materialized in ascending id
//! order, so the outcome is deterministic.

use crate::collection::{indices_consistent, Indices, Store};
use crate::datatypes::{DataType, DataTypeView};
use crate::document::Document;
use crate::index::spec_data_hash;
use crate::query_ingestor::{instruction_views, InstructionView, Instructions};
use crate::query_proc::QueryResult;
use vstd::prelude::*;
use vstd::seq_lib::lemma_seq_contains_after_push;

verus! {

broadcast use lemma_seq_contains_after_push;

/// A document matches an equality predicate exactly when it carries the
/// field and the stored value equals the asked value, variant-exactly. A
/// document without the field never matches: there is no null-coercion.
pub open spec fn scan_match(
    doc: Map<Seq<char>, DataTypeView>,
    field: Seq<char>,
    value: DataTypeView,
) -> bool {
    doc.contains_key(field) && doc[field] == value
}

/// The ids whose documents match a predicate, among ids `1..=upto`.
pub open spec fn scan_ids_upto(
    store: Seq<Map<Seq<char>, DataTypeView>>,
    field: Seq<char>,
    value: DataTypeView,
    upto: int,
) -> Set<usize> {
    Set::new(|id: usize| 1 <= id <= upto && id <= store.len() && scan_match(store[id - 1], field, value))
}

/// The ids a full scan of the store selects for a predicate.
pub open spec fn scan_ids(
    store: Seq<Map<Seq<char>, DataTypeView>>,
    field: Seq<char>,
    value: DataTypeView,
) -> Set<usize> {
    scan_ids_upto(store, field, value, store.len() as int)
}

/// The candidate ids an index yields for a value: the bucket filed under
/// the value's hash, or nothing when no such bucket exists. These are
/// candidates by hash only; a colliding key's ids share the bucket.
pub open spec fn bucket_ids(index: Map<u64, Seq<usize>>, value: DataTypeView) -> Set<usize> {
    if index.contains_key(spec_data_hash(value)) {
        index[spec_data_hash(value)].to_set()
    } else {
        Set::empty()
    }
}

/// The candidate set the first predicate seeds: the field's index bucket
/// when the field is indexed, the full-scan selection otherwise.
pub open spec fn seed_ids(
    store: Seq<Map<Seq<char>, DataTypeView>>,
    indices: Map<Seq<char>, Map<u64, Seq<usize>>>,
    field: Seq<char>,
    value: DataTypeView,
) -> Set<usize> {
    if indices.contains_key(field) {
        bucket_ids(indices[field], value)
    } else {
        scan_ids(store, field, value)
    }
}

/// How a later predicate refines the candidate set: intersection with the
/// field's index bucket when the field is indexed (an absent bucket
/// empties the set); no change when the field is unindexed.
pub open spec fn refine_ids(
    cands: Set<usize>,
    indices: Map<Seq<char>, Map<u64, Seq<usize>>>,
    field: Seq<char>,
    value: DataTypeView,
) -> Set<usize> {
    if indices.contains_key(field) {
        cands.intersect(bucket_ids(indices[field], value))
    } else {
        cands
    }
}

/// The candidate id set after evaluating an ordered predicate list: the
/// first predicate seeds it, each later one refines it. A query with no
/// predicates matches nothing: its candidate set is empty.
pub open spec fn candidate_ids(
    instrs: Seq<InstructionView>,
    store: Seq<Map<Seq<char>, DataTypeView>>,
    indices: Map<Seq<char>, Map<u64, Seq<usize>>>,
) -> Set<usize>
    decreases instrs.len(),
{
    if instrs.len() == 0 {
        Set::empty()
    } else if instrs.len() == 1 {
        match instrs[0] {
            InstructionView::Equal(field, value) => seed_ids(store, indices, field, value),
        }
    } else {
        match instrs.last() {
            InstructionView::Equal(field, value) => refine_ids(
                candidate_ids(instrs.drop_last(), store, indices),
                indices,
                field,
                value,
            ),
        }
    }
}

/// Each element is strictly greater than the one before it.
pub open spec fn strictly_increasing(s: Seq<usize>) -> bool {
    forall|i: int, j: int| 0 <= i < j < s.len() ==> s[i] < s[j]
}

/// The returned documents are exactly the candidate set's documents,
/// listed in ascending id order: there is an id sequence — unique, since
/// it is strictly increasing and enumerates the set — whose `j`-th id's
/// document is the `j`-th result.
pub open spec fn documents_match_candidates(
    docs: Seq<Document>,
    cands: Set<usize>,
    store: Seq<Map<Seq<char>, DataTypeView>>,
) -> bool {
    exists|ids: Seq<usize>|
        {
            &&& #[trigger] ids.to_set() == cands
            &&& strictly_increasing(ids)
            &&& docs.len() == ids.len()
            &&& forall|j: int|
                0 <= j < ids.len() ==> 1 <= #[trigger] ids[j] <= store.len() && docs[j]@
                    == store[ids[j] - 1]
        }
}

/// Every candidate id resolves to a stored document.
pub open spec fn candidates_all_valid(
    instrs: Seq<InstructionView>,
    store: Seq<Map<Seq<char>, DataTypeView>>,
    indices: Map<Seq<char>, Map<u64, Seq<usize>>>,
) -> bool {
    forall|id: usize|
        #[trigger] candidate_ids(instrs, store, indices).contains(id) ==> 1 <= id <= store.len()
}

/// Some candidate id resolves to no stored document: the indices are
/// inconsistent with the store.
pub open spec fn has_invalid_candidate(
    instrs: Seq<InstructionView>,
    store: Seq<Map<Seq<char>, DataTypeView>>,
    indices: Map<Seq<char>, Map<u64, Seq<usize>>>,
) -> bool {
    exists|id: usize|
        #[trigger] candidate_ids(instrs, store, indices).contains(id) && !(1 <= id
            <= store.len())
}

/// On a consistent collection every candidate id points into the store:
/// scan seeds select stored ids by construction, index buckets do so by
/// the consistency invariant, and refinement only shrinks the set.
pub proof fn lemma_candidates_in_store(
    instrs: Seq<InstructionView>,
    store: Seq<Map<Seq<char>, DataTypeView>>,
    indices: Map<Seq<char>, Map<u64, Seq<usize>>>,
)
    requires
        indices_consistent(indices, store),
    ensures
        candidates_all_valid(instrs, store, indices),
    decreases instrs.len(),
{
    if instrs.len() == 0 {
    } else if instrs.len() == 1 {
        match instrs[0] {
            InstructionView::Equal(field, value) => {
                assert forall|id: usize|
                    #[trigger] candidate_ids(instrs, store, indices).contains(id) implies 1 <= id
                    <= store.len() by {
                    if indices.contains_key(field) {
                        let h = spec_data_hash(value);
                        if indices[field].contains_key(h) {
                            let bucket = indices[field][h];
                            assert(bucket.contains(id));
                            let k = choose|k: int| 0 <= k < bucket.len() && bucket[k] == id;
                            assert(indices[field][h][k] == id);
                        } else {
                            assert(!bucket_ids(indices[field], value).contains(id));
                        }
                    } else {
                        assert(scan_ids(store, field, value).contains(id));
                    }
                }
            },
        }
    } else {
        lemma_candidates_in_store(instrs.drop_last(), store, indices);
        match instrs.last() {
            InstructionView::Equal(field, value) => {
                assert forall|id: usize|
                    #[trigger] candidate_ids(instrs, store, indices).contains(id) implies 1 <= id
                    <= store.len() by {
                    let prev = candidate_ids(instrs.drop_last(), store, indices);
                    if indices.contains_key(field) {
                        assert(candidate_ids(instrs, store, indices) == prev.intersect(
                            bucket_ids(indices[field], value),
                        ));
                        assert(prev.contains(id));
                    } else {
                        assert(candidate_ids(instrs, store, indices) == prev);
                        assert(prev.contains(id));
                    }
                }
            },
        }
    }
}

/// A predicate on a field absent from a document never matches that
/// document: there is no null-coercion, so a full scan never selects a
/// document that lacks the queried field, whatever value is asked.
pub proof fn lemma_absent_field_never_matches(
    doc: Map<Seq<char>, DataTypeView>,
    field: Seq<char>,
    value: DataTypeView,
)
    requires
        !doc.contains_key(field),
    ensures
        !scan_match(doc, field, value),
{
}

/// A full scan never selects the id of a document that lacks the queried
/// field.
pub proof fn lemma_absent_field_not_scanned(
    store: Seq<Map<Seq<char>, DataTypeView>>,
    field: Seq<char>,
    value: DataTypeView,
    id: usize,
)
    requires
        1 <= id <= store.len(),
        !store[id - 1].contains_key(field),
    ensures
        !scan_ids(store, field, value).contains(id),
{
}

/// A query with no predicates matches nothing: its candidate set is
/// empty, so its result is the empty document list.
pub proof fn lemma_zero_predicates_match_none(
    store: Seq<Map<Seq<char>, DataTypeView>>,
    indices: Map<Seq<char>, Map<u64, Seq<usize>>>,
)
    ensures
        candidate_ids(Seq::<InstructionView>::empty(), store, indices) == Set::<usize>::empty(),
{
}

/// Resolves every id to its document, in the order given. Any id that
/// resolves to no stored document aborts the whole query with
/// `InvalidIdError`: it signals an index inconsistent with the store, and
/// no partial result is returned.
#[verifier::loop_isolation(false)]
pub fn gather_documents(ids: Vec<usize>, store: &Store) -> (r: QueryResult)
    requires
        store.wf(),
    ensures
        match r {
            QueryResult::Data(docs) => {
                &&& forall|j: int| 0 <= j < ids@.len() ==> store.contains_id(#[trigger] ids@[j])
                &&& docs@.len() == ids@.len()
                &&& forall|j: int| 0 <= j < ids@.len() ==> (#[trigger] docs@[j])@
                    == store@[ids@[j] - 1]
            },
            QueryResult::InvalidIdError => exists|j: int|
                0 <= j < ids@.len() && !store.contains_id(#[trigger] ids@[j]),
            QueryResult::InvalidQueryError => false,
        },
{
    let mut results: Vec<Document> = Vec::new();
    let mut i: usize = 0;
    while i < ids.len()
        invariant
            i <= ids@.len(),
            results@.len() == i,
            forall|j: int| 0 <= j < i ==> store.contains_id(#[trigger] ids@[j]),
            forall|j: int| 0 <= j < i ==> (#[trigger] results@[j])@ == store@[ids@[j] - 1],
        decreases ids@.len() - i,
    {
        match store.get(ids[i]) {
            Some(document) => {
                results.push(document.clone());
            },
            None => {
                return QueryResult::InvalidIdError;
            },
        }
        i += 1;
    }
    QueryResult::Data(results)
}

/// True when the vector holds the id.
#[verifier::loop_isolation(false)]
fn vec_contains(v: &Vec<usize>, x: usize) -> (r: bool)
    ensures
        r == v@.contains(x),
{
    let mut i: usize = 0;
    while i < v.len()
        invariant
            i <= v@.len(),
            forall|j: int| 0 <= j < i ==> v@[j] != x,
        decreases v@.len() - i,
    {
        if v[i] == x {
            return true;
        }
        i += 1;
    }
    false
}

/// Inserts an id into a strictly increasing vector, keeping it strictly
/// increasing; an id already present is left alone.
#[verifier::loop_isolation(false)]
fn insert_sorted(v: &mut Vec<usize>, x: usize)
    requires
        strictly_increasing(old(v)@),
    ensures
        strictly_increasing(final(v)@),
        final(v)@.to_set() == old(v)@.to_set().insert(x),
{
    let mut i: usize = 0;
    while i < v.len() && v[i] < x
        invariant
            i <= v@.len(),
            v@ == old(v)@,
            forall|j: int| 0 <= j < i ==> v@[j] < x,
        decreases v@.len() - i,
    {
        i += 1;
    }
    if i < v.len() && v[i] == x {
        proof {
            assert(v@.contains(x));
            assert(v@.to_set() =~= v@.to_set().insert(x));
        }
        return ;
    }
    let ghost before = v@;
    v.insert(i, x);
    proof {
        let after = v@;
        assert(strictly_increasing(after)) by {
            assert(forall|j: int|
                0 <= j < after.len() ==> after[j] == if j < i {
                    before[j]
                } else if j == i {
                    x
                } else {
                    before[j - 1]
                });
            assert(i < before.len() ==> before[i as int] > x);
        }
        assert(after.to_set() =~= before.to_set().insert(x)) by {
            assert(forall|j: int|
                0 <= j < after.len() ==> after[j] == if j < i {
                    before[j]
                } else if j == i {
                    x
                } else {
                    before[j - 1]
                });
            assert forall|y: usize| after.to_set().contains(y) implies before.to_set().insert(
                x,
            ).contains(y) by {
                let j = choose|j: int| 0 <= j < after.len() && after[j] == y;
                if j < i {
                    assert(before[j] == y);
                } else if j > i {
                    assert(before[j - 1] == y);
                }
            }
            assert forall|y: usize| before.to_set().insert(x).contains(y) implies after
                .to_set().contains(y) by {
                if y == x {
                    assert(after[i as int] == y);
                } else {
                    let j = choose|j: int| 0 <= j < before.len() && before[j] == y;
                    if j < i {
                        assert(after[j] == y);
                    } else {
                        assert(after[j + 1] == y);
                    }
                }
            }
        }
    }
}

/// Copies a bucket's ids into ascending order, dropping duplicates.
#[verifier::loop_isolation(false)]
fn to_sorted(ids: &Vec<usize>) -> (r: Vec<usize>)
    ensures
        strictly_increasing(r@),
        r@.to_set() == ids@.to_set(),
{
    let mut r: Vec<usize> = Vec::new();
    let mut i: usize = 0;
    while i < ids.len()
        invariant
            i <= ids@.len(),
            strictly_increasing(r@),
            r@.to_set() == ids@.take(i as int).to_set(),
        decreases ids@.len() - i,
    {
        insert_sorted(&mut r, ids[i]);
        proof {
            assert(ids@.take(i + 1) =~= ids@.take(i as int).push(ids@[i as int]));
            assert(ids@.take(i + 1).to_set() =~= ids@.take(i as int).to_set().insert(
                ids@[i as int],
            ));
        }
        i += 1;
    }
    proof {
        assert(ids@.take(ids@.len() as int) =~= ids@);
    }
    r
}

/// Keeps, in order, the elements of a strictly increasing vector that the
/// other vector also holds.
#[verifier::loop_isolation(false)]
fn intersect_sorted(a: &Vec<usize>, b: &Vec<usize>) -> (r: Vec<usize>)
    requires
        strictly_increasing(a@),
    ensures
        strictly_increasing(r@),
        r@.to_set() == a@.to_set().intersect(b@.to_set()),
{
    let mut r: Vec<usize> = Vec::new();
    let mut i: usize = 0;
    while i < a.len()
        invariant
            i <= a@.len(),
            strictly_increasing(r@),
            r@.to_set() == a@.take(i as int).to_set().intersect(b@.to_set()),
            forall|p: int, j: int|
                0 <= p < r@.len() && i <= j < a@.len() ==> #[trigger] r@[p] < #[trigger] a@[j],
        decreases a@.len() - i,
    {
        let ghost r0 = r@;
        if vec_contains(b, a[i]) {
            r.push(a[i]);
            proof {
                assert(strictly_increasing(r@)) by {
                    assert(forall|p: int| 0 <= p < r0.len() ==> r@[p] == r0[p]);
                    assert(r@[r0.len() as int] == a@[i as int]);
                }
            }
        }
        proof {
            assert(a@.take(i + 1) =~= a@.take(i as int).push(a@[i as int]));
            assert(a@.take(i + 1).to_set() =~= a@.take(i as int).to_set().insert(a@[i as int]));
            if r@.len() > r0.len() {
                assert(r@.to_set() =~= r0.to_set().insert(a@[i as int]));
            }
            assert(r@.to_set() =~= a@.take(i + 1).to_set().intersect(b@.to_set()));
        }
        i += 1;
    }
    proof {
        assert(a@.take(a@.len() as int) =~= a@);
    }
    r
}

/// Evaluates the ordered predicate list against the store and its
/// indices: the first predicate seeds the candidate id set, each later
/// one refines it (see the module documentation), and the final
/// candidates are resolved to documents in ascending id order. A query
/// with no predicates yields no documents. `InvalidIdError` reports a
/// candidate id with no stored document — an index inconsistent with the
/// store — and carries no partial results.
#[verifier::loop_isolation(false)]
pub fn process_instructions(
    instructions: Vec<Instructions>,
    store: &Store,
    indices: &Indices,
) -> (r: QueryResult)
    requires
        store.wf(),
        indices.wf(),
    ensures
        match r {
            QueryResult::Data(docs) => {
                &&& candidates_all_valid(instruction_views(instructions@), store@, indices@)
                &&& documents_match_candidates(
                    docs@,
                    candidate_ids(instruction_views(instructions@), store@, indices@),
                    store@,
                )
            },
            QueryResult::InvalidIdError => has_invalid_candidate(
                instruction_views(instructions@),
                store@,
                indices@,
            ),
            QueryResult::InvalidQueryError => false,
        },
{
    let ghost ivs = instruction_views(instructions@);
    let mut working: Vec<usize> = Vec::new();
    let mut is_first_equal = true;
    let mut i: usize = 0;
    while i < instructions.len()
        invariant
            i <= instructions@.len(),
            ivs == instruction_views(instructions@),
            is_first_equal == (i == 0),
            strictly_increasing(working@),
            working@.to_set() == candidate_ids(ivs.take(i as int), store@, indices@),
        decreases instructions@.len() - i,
    {
        proof {
            assert(ivs.take(i + 1).drop_last() =~= ivs.take(i as int));
            assert(ivs.take(i + 1).last() == ivs[i as int]);
        }
        match &instructions[i] {
            Instructions::Equal(field, value) => {
                match indices.get(field) {
                    Some(index) => {
                        let sorted_bucket: Vec<usize> = match index.search(value) {
                            Some(bucket) => to_sorted(bucket),
                            None => Vec::new(),
                        };
                        proof {
                            assert(sorted_bucket@.to_set() =~= bucket_ids(
                                indices@[field@],
                                value@,
                            ));
                        }
                        if is_first_equal {
                            working = sorted_bucket;
                        } else {
                            working = intersect_sorted(&working, &sorted_bucket);
                            proof {
                                assert(sorted_bucket@.to_set() == bucket_ids(
                                    indices@[field@],
                                    value@,
                                ));
                            }
                        }
                    },
                    None => {
                        if is_first_equal {
                            working = scan_ids_exec(store, field, value);
                        }
                    },
                }
                is_first_equal = false;
            },
        }
        i += 1;
    }
    proof {
        assert(ivs.take(ivs.len() as int) =~= ivs);
    }
    let ghost final_ids = working@;
    let r = gather_documents(working, store);
    proof {
        let cands = candidate_ids(ivs, store@, indices@);
        match &r {
            QueryResult::Data(docs) => {
                assert forall|id: usize| cands.contains(id) implies 1 <= id <= store@.len() by {
                    assert(final_ids.to_set().contains(id));
                    let j = choose|j: int| 0 <= j < final_ids.len() && final_ids[j] == id;
                    assert(store.contains_id(final_ids[j]));
                }
                assert(documents_match_candidates(docs@, cands, store@)) by {
                    assert(final_ids.to_set() == cands);
                    assert(forall|j: int|
                        0 <= j < final_ids.len() ==> 1 <= #[trigger] final_ids[j]
                            <= store@.len() && docs@[j]@ == store@[final_ids[j] - 1]);
                }
            },
            QueryResult::InvalidIdError => {
                let j = choose|j: int|
                    0 <= j < final_ids.len() && !store.contains_id(#[trigger] final_ids[j]);
                assert(final_ids.to_set().contains(final_ids[j]));
            },
            QueryResult::InvalidQueryError => {},
        }
    }
    r
}

/// Scans the whole store for documents matching one equality predicate,
/// collecting their ids in ascending order.
#[verifier::loop_isolation(false)]
fn scan_ids_exec(store: &Store, field: &String, value: &DataType) -> (r: Vec<usize>)
    requires
        store.wf(),
    ensures
        strictly_increasing(r@),
        r@.to_set() == scan_ids(store@, field@, value@),
{
    let mut r: Vec<usize> = Vec::new();
    let n = store.len();
    let mut pos: usize = 0;
    while pos < n
        invariant
            pos <= n,
            n == store@.len(),
            strictly_increasing(r@),
            forall|p: int| 0 <= p < r@.len() ==> #[trigger] r@[p] <= pos,
            r@.to_set() == scan_ids_upto(store@, field@, value@, pos as int),
        decreases n - pos,
    {
        let ghost r0 = r@;
        let id = pos + 1;
        match store.get(id) {
            Some(document) => {
                match document.get(field) {
                    Some(found_value) => {
                        if *found_value == *value {
                            r.push(id);
                            proof {
                                assert(strictly_increasing(r@)) by {
                                    assert(forall|p: int| 0 <= p < r0.len() ==> r@[p] == r0[p]);
                                    assert(r@[r0.len() as int] == id);
                                }
                            }
                        }
                    },
                    None => {},
                }
            },
            None => {},
        }
        proof {
            if r@.len() > r0.len() {
                assert(r@.to_set() =~= r0.to_set().insert(id));
            }
            assert(r@.to_set() =~= scan_ids_upto(store@, field@, value@, id as int));
        }
        pos = id;
    }
    proof {
        assert(scan_ids_upto(store@, field@, value@, n as int) =~= scan_ids(
            store@,
            field@,
            value@,
        ));
    }
    r
}

} // verus!
