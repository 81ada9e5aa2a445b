use vstd::prelude::*;

use serde_json::Value;

use crate::error::DatabaseError;
use crate::strmap::NameMap;
use crate::text::{lemma_sorted_texts, sorted_texts, strictly_sorted};

verus! {

/// A row of a table: its id and a value for each of its fields.
pub struct Row {
    id: usize,
    data: NameMap<Value>,
}

impl Row {
    /// The id the row was made with.
    pub closed spec fn row_id(&self) -> usize {
        self.id
    }

    /// The row's inner map is well formed.
    pub closed spec fn wf(&self) -> bool {
        self.data.wf()
    }

    /// The fields of the row with their values.
    pub closed spec fn view(&self) -> Map<Seq<char>, Value> {
        self.data@
    }

    /// A row has finitely many fields.
    pub proof fn lemma_finite_fields(&self)
        requires
            self.wf(),
        ensures
            self@.dom().finite(),
    {
        self.data.lemma_sorted_names();
    }

    /// An empty row with the given id.
    pub fn new(id: usize) -> (r: Self)
        ensures
            r.wf(),
            r.row_id() == id,
            r@ == Map::<Seq<char>, Value>::empty(),
    {
        Self { id, data: NameMap::new() }
    }

    /// The value of a field, if the row has that field.
    pub fn get_value(&self, field_name: &str) -> (r: Option<&Value>)
        requires
            self.wf(),
        ensures
            match r {
                Some(v) => self@.contains_key(field_name@) && *v == self@[field_name@],
                None => !self@.contains_key(field_name@),
            },
    {
        self.data.get(field_name)
    }

    /// The names of the row's fields, each once, in increasing order.
    pub fn field_names(&self) -> (r: Vec<&str>)
        requires
            self.wf(),
        ensures
            r@.map_values(|s: &str| s@) == sorted_texts(self@.dom()),
            r@.map_values(|s: &str| s@).to_set() == self@.dom(),
            strictly_sorted(r@.map_values(|s: &str| s@)),
    {
        proof {
            self.data.lemma_sorted_names();
            lemma_sorted_texts(self.data.sorted_names());
        }
        self.data.keys()
    }

    /// Sets a field to a value, adding the field if the row lacks it.
    /// Always succeeds.
    pub fn insert_value(&mut self, field_name: String, new_value: Value) -> (r: Result<
        (),
        DatabaseError,
    >)
        requires
            old(self).wf(),
        ensures
            r == Ok::<(), DatabaseError>(()),
            final(self).wf(),
            final(self).row_id() == old(self).row_id(),
            final(self)@ == old(self)@.insert(field_name@, new_value),
    {
        self.data.insert(field_name, new_value);
        Ok(())
    }
}

} // verus!
