use vstd::prelude::*;

use std::collections::BTreeMap;

use serde_json::Value;

use crate::error::DatabaseError;
use crate::json::clone_value;
use crate::row::Row;
use crate::strmap::NameMap;
use crate::text::{lemma_sorted_texts, sorted_texts, strictly_sorted};

verus! {

/// The names of the fields that at least one of the rows has.
pub open spec fn fields_of_rows(rows: Seq<Map<Seq<char>, Value>>) -> Set<Seq<char>> {
    Set::new(|f: Seq<char>| exists|i: int| 0 <= i < rows.len() && #[trigger] rows[i].contains_key(f))
}

/// The value of a field of a row, where the row exists and has the field.
pub open spec fn value_at(rows: Seq<Map<Seq<char>, Value>>, row_id: int, field: Seq<char>) -> Option<
    Value,
> {
    if 0 <= row_id < rows.len() && rows[row_id].contains_key(field) {
        Some(rows[row_id][field])
    } else {
        None
    }
}

/// The rows after a field of a row was set, where the row exists; else unchanged.
pub open spec fn with_value(
    rows: Seq<Map<Seq<char>, Value>>,
    row_id: int,
    field: Seq<char>,
    value: Value,
) -> Seq<Map<Seq<char>, Value>> {
    if 0 <= row_id < rows.len() {
        rows.update(row_id, rows[row_id].insert(field, value))
    } else {
        rows
    }
}

/// A value read back after it was set is the value that was set.
pub proof fn law_read_after_write(
    rows: Seq<Map<Seq<char>, Value>>,
    row_id: int,
    field: Seq<char>,
    value: Value,
)
    requires
        0 <= row_id < rows.len(),
    ensures
        value_at(with_value(rows, row_id, field, value), row_id, field) == Some(value),
{
}

/// Setting a field leaves every other field of every row as it was.
pub proof fn law_write_leaves_others(
    rows: Seq<Map<Seq<char>, Value>>,
    row_id: int,
    field: Seq<char>,
    value: Value,
    other_row: int,
    other_field: Seq<char>,
)
    requires
        other_row != row_id || other_field != field,
    ensures
        value_at(with_value(rows, row_id, field, value), other_row, other_field) == value_at(
            rows,
            other_row,
            other_field,
        ),
{
}

/// Setting a field adds it to the fields of the table, and no other.
pub proof fn law_write_adds_field(
    rows: Seq<Map<Seq<char>, Value>>,
    row_id: int,
    field: Seq<char>,
    value: Value,
)
    requires
        0 <= row_id < rows.len(),
    ensures
        fields_of_rows(with_value(rows, row_id, field, value)) == fields_of_rows(rows).insert(
            field,
        ),
{
    let after = with_value(rows, row_id, field, value);
    assert forall|f: Seq<char>| fields_of_rows(after).contains(f) <==> fields_of_rows(rows).insert(
        field,
    ).contains(f) by {
        if fields_of_rows(after).contains(f) {
            let i = choose|i: int| 0 <= i < after.len() && #[trigger] after[i].contains_key(f);
            if f != field {
                assert(rows[i].contains_key(f));
            }
        }
        if fields_of_rows(rows).contains(f) {
            let i = choose|i: int| 0 <= i < rows.len() && #[trigger] rows[i].contains_key(f);
            assert(after[i].contains_key(f));
        }
        if f == field {
            assert(after[row_id].contains_key(f));
        }
    }
    assert(fields_of_rows(after) =~= fields_of_rows(rows).insert(field));
}

/// A new row has no fields, and takes the next id.
pub proof fn law_new_row_is_empty(rows: Seq<Map<Seq<char>, Value>>, field: Seq<char>)
    ensures
        value_at(rows.push(Map::empty()), rows.len() as int, field) is None,
        fields_of_rows(rows.push(Map::empty())) == fields_of_rows(rows),
{
    let after = rows.push(Map::empty());
    assert forall|f: Seq<char>| fields_of_rows(after).contains(f) <==> fields_of_rows(
        rows,
    ).contains(f) by {
        if fields_of_rows(after).contains(f) {
            let i = choose|i: int| 0 <= i < after.len() && #[trigger] after[i].contains_key(f);
            assert(rows[i].contains_key(f));
        }
        if fields_of_rows(rows).contains(f) {
            let i = choose|i: int| 0 <= i < rows.len() && #[trigger] rows[i].contains_key(f);
            assert(after[i].contains_key(f));
        }
    }
    assert(fields_of_rows(after) =~= fields_of_rows(rows));
}

/// Rows that each have finitely many fields have finitely many fields in all.
pub proof fn lemma_fields_finite(rows: Seq<Map<Seq<char>, Value>>)
    requires
        forall|i: int| 0 <= i < rows.len() ==> (#[trigger] rows[i]).dom().finite(),
    ensures
        fields_of_rows(rows).finite(),
    decreases rows.len(),
{
    if rows.len() == 0 {
        assert(fields_of_rows(rows) =~= Set::<Seq<char>>::empty());
    } else {
        let front = rows.drop_last();
        assert forall|i: int| 0 <= i < front.len() implies (#[trigger] front[i]).dom().finite() by {
            assert(front[i] == rows[i]);
        }
        lemma_fields_finite(front);
        let last = rows.last();
        assert forall|f: Seq<char>| fields_of_rows(rows).contains(f) <==> fields_of_rows(
            front,
        ).union(last.dom()).contains(f) by {
            if fields_of_rows(rows).contains(f) {
                let i = choose|i: int| 0 <= i < rows.len() && #[trigger] rows[i].contains_key(f);
                if i < front.len() {
                    assert(front[i].contains_key(f));
                }
            }
            if fields_of_rows(front).contains(f) {
                let i = choose|i: int| 0 <= i < front.len() && #[trigger] front[i].contains_key(f);
                assert(rows[i].contains_key(f));
            }
            if last.dom().contains(f) {
                assert(rows[rows.len() - 1].contains_key(f));
            }
        }
        assert(fields_of_rows(rows) =~= fields_of_rows(front).union(last.dom()));
    }
}

/// A table: rows numbered from 0 in the order they were inserted.
pub struct Table {
    rows: BTreeMap<usize, Row>,
    next_id: usize,
}

impl Table {
    /// The rows are exactly those numbered below `next_id`, each row carrying
    /// its own number.
    pub closed spec fn wf(&self) -> bool {
        &&& forall|id: usize| #[trigger] self.rows@.contains_key(id) <==> id < self.next_id
        &&& forall|id: usize|
            #![trigger self.rows@[id]]
            id < self.next_id ==> self.rows@[id].wf() && self.rows@[id].row_id() == id
        &&& self.rows@.dom().len() == self.next_id
    }

    /// The rows, the one with id `i` at index `i`, each as its fields and values.
    pub closed spec fn view(&self) -> Seq<Map<Seq<char>, Value>> {
        Seq::new(self.next_id as nat, |i: int| self.rows@[i as usize]@)
    }

    /// A table has finitely many fields.
    pub proof fn lemma_fields_of_table_finite(&self)
        requires
            self.wf(),
        ensures
            fields_of_rows(self@).finite(),
    {
        assert forall|i: int| 0 <= i < self@.len() implies (#[trigger] self@[i]).dom().finite() by {
            let id = i as usize;
            assert(self.rows@[id].wf());
            self.rows@[id].lemma_finite_fields();
        }
        lemma_fields_finite(self@);
    }

    /// An empty table.
    pub fn new() -> (r: Self)
        ensures
            r.wf(),
            r@ == Seq::<Map<Seq<char>, Value>>::empty(),
    {
        let r = Self { rows: BTreeMap::new(), next_id: 0 };
        assert(r.rows@.dom() =~= Set::<usize>::empty());
        assert(r@ =~= Seq::<Map<Seq<char>, Value>>::empty());
        r
    }

    /// The row with the given id, if there is one.
    pub fn get_row(&self, key: usize) -> (r: Option<&Row>)
        requires
            self.wf(),
        ensures
            match r {
                Some(row) => key < self@.len() && row@ == self@[key as int] && row.row_id() == key
                    && row.wf(),
                None => key >= self@.len(),
            },
    {
        let r = self.rows.get(&key);
        proof {
            if self.rows@.contains_key(key) {
                assert(self.rows@[key].wf() && self.rows@[key].row_id() == key);
            }
        }
        r
    }

    /// A copy of the value of a field of a row; `NotFound` where the row or
    /// the field does not exist.
    pub fn get_value(&self, row_id: usize, field_name: &str) -> (r: Result<Value, DatabaseError>)
        requires
            self.wf(),
        ensures
            r == match value_at(self@, row_id as int, field_name@) {
                Some(v) => Ok::<Value, DatabaseError>(v),
                None => Err(DatabaseError::NotFound),
            },
    {
        match self.rows.get(&row_id) {
            Some(row) => match row.get_value(field_name) {
                Some(value) => Ok(clone_value(value)),
                None => Err(DatabaseError::NotFound),
            },
            None => Err(DatabaseError::NotFound),
        }
    }

    /// Appends an empty row and returns its id, the number of rows before.
    pub fn insert_row(&mut self) -> (id: usize)
        requires
            old(self).wf(),
            old(self)@.len() < usize::MAX,
        ensures
            final(self).wf(),
            id == old(self)@.len(),
            final(self)@ == old(self)@.push(Map::<Seq<char>, Value>::empty()),
    {
        let id = self.next_id;
        self.next_id += 1;
        let ghost old_rows = self.rows@;
        self.rows.insert(id, Row::new(id));
        proof {
            assert(!old_rows.contains_key(id));
            assert(self.rows@.dom() =~= old_rows.dom().insert(id));
            assert(self@ =~= old(self)@.push(Map::<Seq<char>, Value>::empty()));
        }
        id
    }

    /// The number of rows.
    pub fn row_count(&self) -> (n: usize)
        requires
            self.wf(),
        ensures
            n == self@.len(),
    {
        self.rows.len()
    }

    /// The names of all fields that any row has, each once, in increasing order.
    pub fn field_names(&self) -> (r: Vec<String>)
        requires
            self.wf(),
        ensures
            r@.map_values(|s: String| s@) == sorted_texts(fields_of_rows(self@)),
            r@.map_values(|s: String| s@).to_set() == fields_of_rows(self@),
            strictly_sorted(r@.map_values(|s: String| s@)),
    {
        let mut names: NameMap<()> = NameMap::new();
        let n = self.next_id;
        for id in 0..n
            invariant
                n == self.next_id,
                self.wf(),
                names.wf(),
                names@.dom() =~= fields_of_rows(self@.take(id as int)),
        {
            let ghost before = names@.dom();
            match self.rows.get(&id) {
                Some(row) => {
                    let fields = row.field_names();
                    let m = fields.len();
                    for j in 0..m
                        invariant
                            m == fields@.len(),
                            names.wf(),
                            row.wf(),
                            names@.dom() =~= before.union(
                                fields@.map_values(|s: &str| s@).take(j as int).to_set(),
                            ),
                    {
                        let ghost prev = names@.dom();
                        names.insert(String::from_str(fields[j]), ());
                        proof {
                            let s = fields@.map_values(|s: &str| s@);
                            assert(s.take(j + 1) =~= s.take(j as int).push(s[j as int]));
                            let a = s.take(j + 1);
                            let b = s.take(j as int);
                            assert(a.to_set() =~= b.to_set().insert(s[j as int])) by {
                                assert forall|x: Seq<char>| a.to_set().contains(x) <==> b.to_set().insert(s[j as int]).contains(x) by {
                                    if a.contains(x) {
                                        let t = choose|t: int| 0 <= t < a.len() && a[t] == x;
                                        if t < j {
                                            assert(b[t] == x);
                                        }
                                    }
                                    if b.contains(x) {
                                        let t = choose|t: int| 0 <= t < b.len() && b[t] == x;
                                        assert(a[t] == x);
                                    }
                                    if x == s[j as int] {
                                        assert(a[j as int] == x);
                                    }
                                }
                            }
                            assert(names@.dom() =~= prev.insert(fields[j as int]@));
                        }
                        assert(fields@.map_values(|s: &str| s@).take(j + 1) =~= fields@.map_values(
                            |s: &str| s@,
                        ).take(j as int).push(fields[j as int]@));
                    }
                    proof {
                        assert(fields@.map_values(|s: &str| s@).take(m as int) =~= fields@.map_values(
                            |s: &str| s@,
                        ));
                        assert(self@.take(id + 1) =~= self@.take(id as int).push(row@));
                        assert forall|f: Seq<char>| names@.dom().contains(f) <==> fields_of_rows(
                            self@.take(id + 1),
                        ).contains(f) by {
                            if fields_of_rows(self@.take(id + 1)).contains(f) {
                                let i = choose|i: int|
                                    0 <= i < self@.take(id + 1).len() && #[trigger] self@.take(
                                        id + 1,
                                    )[i].contains_key(f);
                                if i < id {
                                    assert(self@.take(id as int)[i].contains_key(f));
                                }
                            }
                            if before.contains(f) {
                                let i = choose|i: int|
                                    0 <= i < self@.take(id as int).len() && #[trigger] self@.take(
                                        id as int,
                                    )[i].contains_key(f);
                                assert(self@.take(id + 1)[i].contains_key(f));
                            }
                            if row@.contains_key(f) {
                                assert(self@.take(id + 1)[id as int].contains_key(f));
                            }
                        }
                    }
                },
                None => {},
            }
        }
        assert(self@.take(n as int) =~= self@);
        let keys = names.keys();
        proof {
            names.lemma_sorted_names();
        }
        let mut r: Vec<String> = Vec::new();
        let k = keys.len();
        for i in 0..k
            invariant
                k == keys@.len(),
                r@.map_values(|s: String| s@) =~= keys@.map_values(|s: &str| s@).take(i as int),
        {
            r.push(String::from_str(keys[i]));
            assert(keys@.map_values(|s: &str| s@).take(i + 1) =~= keys@.map_values(
                |s: &str| s@,
            ).take(i as int).push(keys[i as int]@));
        }
        assert(keys@.map_values(|s: &str| s@).take(k as int) =~= keys@.map_values(|s: &str| s@));
        proof {
            lemma_sorted_texts(r@.map_values(|s: String| s@));
        }
        r
    }

    /// Sets a field of a row; `NotFound`, with nothing changed, where the
    /// row does not exist.
    pub fn set_value(&mut self, row_id: usize, field_name: String, new_value: Value) -> (r: Result<
        (),
        DatabaseError,
    >)
        requires
            old(self).wf(),
        ensures
            final(self).wf(),
            final(self)@ == with_value(old(self)@, row_id as int, field_name@, new_value),
            r == if row_id < old(self)@.len() {
                Ok::<(), DatabaseError>(())
            } else {
                Err(DatabaseError::NotFound)
            },
    {
        let ghost old_rows = self.rows@;
        match self.rows.remove(&row_id) {
            Some(mut row) => {
                let r = row.insert_value(field_name, new_value);
                self.rows.insert(row_id, row);
                proof {
                    assert(old_rows.contains_key(row_id));
                    assert(row_id < self.next_id);
                    assert(r == Ok::<(), DatabaseError>(()));
                    assert(self.rows@ == old_rows.insert(row_id, row));
                    assert(self.rows@.dom() =~= old_rows.dom());
                    assert forall|id: usize| #![trigger self.rows@[id]] id < self.next_id implies self.rows@[id].wf()
                        && self.rows@[id].row_id() == id by {
                        if id != row_id {
                            assert(old_rows.contains_key(id));
                            assert(old(self).rows@[id].wf());
                        }
                    }
                    assert(self@ =~= old(self)@.update(
                        row_id as int,
                        old(self)@[row_id as int].insert(field_name@, new_value),
                    ));
                }
                r
            },
            None => {
                assert(!old_rows.contains_key(row_id));
                Err(DatabaseError::NotFound)
            },
        }
    }
}

} // verus!
