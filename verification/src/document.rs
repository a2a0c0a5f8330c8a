//! A document: a mapping from field name to typed value, the unit of
//! storage. Documents are schema-less; two documents in one collection may
//! have disjoint field sets or differently typed values under one name.

use crate::datatypes::{DataType, DataTypeView};
use crate::kvlist::{assoc_map, lemma_assoc_map_at, lemma_assoc_map_domain, lemma_assoc_map_push,
    lemma_assoc_map_update, unique_keys};
use vstd::prelude::*;

verus! {

/// A single document: field names, each unique within the document, mapped
/// to typed values. Field entries keep their insertion order.
#[derive(Debug)]
pub struct Document {
    fields: Vec<(String, DataType)>,
}

impl View for Document {
    type V = Map<Seq<char>, DataTypeView>;

    open spec fn view(&self) -> Map<Seq<char>, DataTypeView> {
        assoc_map(self.entries())
    }
}

impl Document {
    /// The document's field entries, in insertion order, at the
    /// specification level.
    pub closed spec fn entries(&self) -> Seq<(Seq<char>, DataTypeView)> {
        self.fields@.map_values(|p: (String, DataType)| (p.0@, p.1@))
    }

    /// Each field name occurs at most once.
    pub open spec fn wf(&self) -> bool {
        unique_keys(self.entries())
    }

    /// Produces a new, empty document.
    pub fn new() -> (r: Document)
        ensures
            r@ == Map::<Seq<char>, DataTypeView>::empty(),
            r.entries() == Seq::<(Seq<char>, DataTypeView)>::empty(),
            r.wf(),
    {
        let r = Document { fields: Vec::new() };
        proof {
            assert(r.entries() =~= Seq::<(Seq<char>, DataTypeView)>::empty());
        }
        r
    }

    /// Sets a field to a value: replaces the value in place if the field
    /// is already present, appends a new entry otherwise, so the entry
    /// list keeps its order.
    #[verifier::loop_isolation(false)]
    pub fn insert(&mut self, field: String, value: DataType)
        requires
            old(self).wf(),
        ensures
            final(self).wf(),
            final(self)@ == old(self)@.insert(field@, value@),
            old(self)@.contains_key(field@) ==> exists|i: int|
                0 <= i < old(self).entries().len() && (#[trigger] old(self).entries()[i]).0
                    == field@ && final(self).entries() == old(self).entries().update(
                    i,
                    (field@, value@),
                ),
            !old(self)@.contains_key(field@) ==> final(self).entries() == old(
                self,
            ).entries().push((field@, value@)),
    {
        let ghost entries0 = self.entries();
        let mut i: usize = 0;
        while i < self.fields.len()
            invariant
                self.entries() == entries0,
                i <= entries0.len(),
                self.fields.len() == entries0.len(),
                forall|j: int| 0 <= j < i ==> (#[trigger] entries0[j]).0 != field@,
            decreases self.fields.len() - i,
        {
            if self.fields[i].0 == field {
                let slot = vstd::std_specs::vec::vec_index_mut(&mut self.fields, i);
                slot.1 = value;
                proof {
                    assert(entries0[i as int].0 == field@);
                    lemma_assoc_map_at(entries0, i as int);
                    assert(self.entries() =~= entries0.update(
                        i as int,
                        (entries0[i as int].0, value@),
                    ));
                    lemma_assoc_map_update(entries0, i as int, value@);
                    assert((i as int) < entries0.len());
                    assert(self.entries() == entries0.update(i as int, (field@, value@)));
                }
                return ;
            }
            i += 1;
        }
        proof {
            lemma_assoc_map_domain(entries0, field@);
        }
        let ghost fv = field@;
        let ghost vv = value@;
        self.fields.push((field, value));
        proof {
            assert(self.entries() =~= entries0.push((fv, vv)));
            lemma_assoc_map_push(entries0, fv, vv);
        }
    }

    /// Looks a field up: the value stored under the name, or `None` when
    /// the document has no such field.
    #[verifier::loop_isolation(false)]
    pub fn get(&self, field: &String) -> (r: Option<&DataType>)
        requires
            self.wf(),
        ensures
            match r {
                Some(v) => self@.contains_key(field@) && v@ == self@[field@],
                None => !self@.contains_key(field@),
            },
    {
        let mut i: usize = 0;
        while i < self.fields.len()
            invariant
                i <= self.fields.len(),
                self.fields.len() == self.entries().len(),
                forall|j: int| 0 <= j < i ==> (#[trigger] self.entries()[j]).0 != field@,
            decreases self.fields.len() - i,
        {
            if self.fields[i].0 == *field {
                proof {
                    lemma_assoc_map_at(self.entries(), i as int);
                }
                return Some(&self.fields[i].1);
            }
            i += 1;
        }
        proof {
            lemma_assoc_map_domain(self.entries(), field@);
        }
        None
    }

    /// The number of fields.
    pub fn num_fields(&self) -> (n: usize)
        ensures
            n == self.entries().len(),
    {
        self.fields.len()
    }

    /// The field name and value at a position, counting in insertion
    /// order.
    pub fn entry_at(&self, i: usize) -> (p: (&String, &DataType))
        requires
            i < self.entries().len(),
        ensures
            p.0@ == self.entries()[i as int].0,
            p.1@ == self.entries()[i as int].1,
    {
        (&self.fields[i].0, &self.fields[i].1)
    }
}

impl PartialEq for Document {
    #[verifier::loop_isolation(false)]
    fn eq(&self, other: &Self) -> (r: bool) {
        if self.fields.len() != other.fields.len() {
            proof {
                assert(self.entries().len() != other.entries().len());
            }
            return false;
        }
        let mut i: usize = 0;
        while i < self.fields.len()
            invariant
                i <= self.fields.len(),
                self.fields.len() == other.fields.len(),
                forall|j: int| 0 <= j < i ==> self.entries()[j] == other.entries()[j],
            decreases self.fields.len() - i,
        {
            if !(self.fields[i].0 == other.fields[i].0) {
                proof {
                    assert(self.entries()[i as int] != other.entries()[i as int]);
                }
                return false;
            }
            if !(self.fields[i].1 == other.fields[i].1) {
                proof {
                    assert(self.entries()[i as int] != other.entries()[i as int]);
                }
                return false;
            }
            i += 1;
        }
        proof {
            assert(self.entries() =~= other.entries());
        }
        true
    }
}

impl vstd::std_specs::cmp::PartialEqSpecImpl for Document {
    open spec fn obeys_eq_spec() -> bool {
        true
    }

    open spec fn eq_spec(&self, other: &Self) -> bool {
        self.entries() == other.entries()
    }
}

impl Clone for Document {
    /// Produces a document with the same field entries.
    #[verifier::loop_isolation(false)]
    fn clone(&self) -> (res: Self)
        ensures
            res.entries() == self.entries(),
            res@ == self@,
            res.wf() == self.wf(),
    {
        let mut fields: Vec<(String, DataType)> = Vec::new();
        let mut i: usize = 0;
        while i < self.fields.len()
            invariant
                i <= self.fields.len(),
                fields@.len() == i,
                forall|j: int| 0 <= j < i ==> fields@[j] == self.fields@[j],
            decreases self.fields.len() - i,
        {
            fields.push((self.fields[i].0.clone(), self.fields[i].1.clone()));
            i += 1;
        }
        let res = Document { fields };
        proof {
            assert(res.fields@ =~= self.fields@);
        }
        res
    }
}

} // verus!
