use vstd::prelude::*;

use crate::bytes::str_eq;
use crate::record::field::{Value, ValueView};
use crate::record::schema::{schema_has, Schema, SchemaView};

verus! {

/// The model of a row: its fields in order, each a name and a value.
pub type RowView = Seq<(Seq<char>, ValueView)>;

/// Whether the row has a field of that name.
pub open spec fn row_has(v: RowView, name: Seq<char>) -> bool {
    exists|i: int| 0 <= i < v.len() && #[trigger] v[i].0 == name
}

/// The position of the first field of that name.
pub open spec fn row_position(v: RowView, name: Seq<char>) -> int {
    choose|i: int|
        0 <= i < v.len() && v[i].0 == name && forall|j: int| 0 <= j < i ==> v[j].0 != name
}

/// The value of the field of that name.
pub open spec fn row_value(v: RowView, name: Seq<char>) -> ValueView {
    v[row_position(v, name)].1
}

/// The row with the named field set to `value`: replaced where the field is
/// there, added at the end where it is not.
pub open spec fn row_with(v: RowView, name: Seq<char>, value: ValueView) -> RowView {
    if row_has(v, name) {
        v.update(row_position(v, name), (name, value))
    } else {
        v.push((name, value))
    }
}

proof fn lemma_first_with_name(v: RowView, name: Seq<char>, k: int)
    requires
        0 <= k < v.len(),
        v[k].0 == name,
    ensures
        exists|i: int| 0 <= i <= k && v[i].0 == name && forall|j: int| 0 <= j < i ==> v[j].0 != name,
    decreases k,
{
    if exists|j: int| 0 <= j < k && v[j].0 == name {
        let j = choose|j: int| 0 <= j < k && v[j].0 == name;
        lemma_first_with_name(v, name, j);
    } else {
        assert(0 <= k <= k && v[k].0 == name && forall|j: int| 0 <= j < k ==> v[j].0 != name);
    }
}

proof fn lemma_row_position(v: RowView, name: Seq<char>)
    requires
        row_has(v, name),
    ensures
        0 <= row_position(v, name) < v.len(),
        v[row_position(v, name)].0 == name,
        forall|j: int| 0 <= j < row_position(v, name) ==> v[j].0 != name,
{
    let k = choose|i: int| 0 <= i < v.len() && #[trigger] v[i].0 == name;
    lemma_first_with_name(v, name, k);
}

proof fn lemma_row_position_unique(v: RowView, name: Seq<char>, p: int)
    requires
        0 <= p < v.len(),
        v[p].0 == name,
        forall|j: int| 0 <= j < p ==> v[j].0 != name,
    ensures
        row_position(v, name) == p,
{
    assert(row_has(v, name));
    lemma_row_position(v, name);
    let q = row_position(v, name);
    if q < p {
        assert(v[q].0 != name);
    } else if q > p {
        assert(v[p].0 != name);
    }
}

/// Setting a field of a row makes the row hold that value in that field,
/// and leaves every other field as it was.
pub proof fn lemma_row_with(v: RowView, name: Seq<char>, value: ValueView, other: Seq<char>)
    ensures
        row_has(row_with(v, name, value), name),
        row_value(row_with(v, name, value), name) == value,
        other != name ==> row_has(row_with(v, name, value), other) == row_has(v, other),
        other != name && row_has(v, other) ==> row_value(row_with(v, name, value), other) == row_value(
            v,
            other,
        ),
{
    let w = row_with(v, name, value);
    if row_has(v, name) {
        lemma_row_position(v, name);
        let p = row_position(v, name);
        assert(w[p].0 == name);
        lemma_row_position_unique(w, name, p);
    } else {
        let p = v.len() as int;
        assert(w[p].0 == name);
        assert forall|j: int| 0 <= j < p implies w[j].0 != name by {
            assert(w[j] == v[j]);
        }
        lemma_row_position_unique(w, name, p);
    }
    if other != name {
        if row_has(v, other) {
            let k = choose|i: int| 0 <= i < v.len() && #[trigger] v[i].0 == other;
            assert(w[k].0 == other);
            lemma_row_position(v, other);
            let q = row_position(v, other);
            assert(w[q] == v[q]);
            assert forall|j: int| 0 <= j < q implies w[j].0 != other by {
                assert(w[j].0 == v[j].0 || w[j].0 == name);
            }
            lemma_row_position_unique(w, other, q);
        }
        if row_has(w, other) {
            let k = choose|i: int| 0 <= i < w.len() && #[trigger] w[i].0 == other;
            if k < v.len() {
                assert(w[k].0 == v[k].0 || w[k].0 == name);
                assert(v[k].0 == other);
            }
        }
    }
}

/// The current record of a scan: named field values.
#[derive(Debug, Clone, PartialEq, Eq)]
pub struct Row {
    fields: Vec<(String, Value)>,
}

impl View for Row {
    type V = RowView;

    closed spec fn view(&self) -> RowView {
        self.fields@.map_values(|p: (String, Value)| (p.0@, p.1@))
    }
}

/// The position of a record within a table: its block and its slot.
#[derive(Debug, Clone, Copy, PartialEq, Eq, Hash)]
pub struct RecordId(pub usize, pub usize);

impl Row {
    /// A row with no fields.
    pub fn new() -> (r: Self)
        ensures
            r@ == Seq::<(Seq<char>, ValueView)>::empty(),
    {
        let r = Row { fields: Vec::new() };
        assert(r@ =~= Seq::<(Seq<char>, ValueView)>::empty());
        r
    }

    fn position(&self, name: &str) -> (r: Option<usize>)
        ensures
            match r {
                Some(i) => i < self@.len() && row_position(self@, name@) == i && self@[i as int].0
                    == name@,
                None => !row_has(self@, name@),
            },
    {
        let mut i: usize = 0;
        while i < self.fields.len()
            invariant
                i <= self.fields@.len(),
                forall|j: int| 0 <= j < i ==> self@[j].0 != name@,
            decreases self.fields@.len() - i,
        {
            if str_eq(self.fields[i].0.as_str(), name) {
                let ghost p = row_position(self@, name@);
                assert(0 <= i < self@.len() && self@[i as int].0 == name@ && forall|j: int|
                    0 <= j < i ==> self@[j].0 != name@);
                assert(p == i) by {
                    if p < i {
                    } else if p > i {
                    }
                }
                return Some(i);
            }
            i = i + 1;
        }
        None
    }

    /// A copy of the row.
    pub fn duplicate(&self) -> (r: Row)
        ensures
            r@ == self@,
    {
        let mut fields: Vec<(String, Value)> = Vec::new();
        let mut i: usize = 0;
        while i < self.fields.len()
            invariant
                i <= self.fields@.len(),
                fields@.len() == i,
                forall|j: int| 0 <= j < i ==> (#[trigger] fields@[j]).0@ == self.fields@[j].0@
                    && fields@[j].1@ == self.fields@[j].1@,
            decreases self.fields@.len() - i,
        {
            let pair = &self.fields[i];
            fields.push((pair.0.clone(), pair.1.duplicate()));
            i = i + 1;
        }
        let r = Row { fields };
        assert(r@ =~= self@);
        r
    }

    /// Whether the row has a field of that name.
    pub fn has_field(&self, name: &str) -> (r: bool)
        ensures
            r == row_has(self@, name@),
    {
        self.position(name).is_some()
    }

    /// The value of the named field, which must be in the row.
    pub fn get_value(&self, name: &str) -> (r: Value)
        requires
            row_has(self@, name@),
        ensures
            r@ == row_value(self@, name@),
    {
        match self.position(name) {
            Some(i) => self.fields[i].1.duplicate(),
            None => {
                proof {
                    assert(false);
                }
                Value::Null
            },
        }
    }

    /// Sets the named field to `value`.
    pub fn set_value(&mut self, name: &str, value: Value)
        ensures
            final(self)@ == row_with(old(self)@, name@, value@),
    {
        let ghost before = self@;
        match self.position(name) {
            Some(i) => {
                self.fields.set(i, (name.to_owned(), value));
                assert(self@ =~= before.update(i as int, (name@, value@)));
            },
            None => {
                self.fields.push((name.to_owned(), value));
                assert(self@ =~= before.push((name@, value@)));
            },
        }
    }
}


/// A cursor over a sequence of records. Before the first call of `next` it
/// stands before the first record; each successful call moves it to the
/// following record, which becomes the current one.
pub trait ScanControl {
    /// The records that the scan walks through, in order.
    spec fn rows(&self) -> Seq<RowView>;

    /// How many records the scan has moved through: the current record is the
    /// one before this position.
    spec fn position(&self) -> int;

    /// The fields that the scan's records have.
    spec fn fields(&self) -> SchemaView;

    /// Whether the scan's internal state is consistent.
    spec fn valid(&self) -> bool;

    /// Moves the scan before its first record.
    fn before_first(&mut self)
        requires
            old(self).valid(),
        ensures
            final(self).valid(),
            final(self).rows() == old(self).rows(),
            final(self).fields() == old(self).fields(),
            final(self).position() == 0,
    ;

    /// Moves to the next record; false when there is none, and then the
    /// scan stays where it is.
    fn next(&mut self) -> (r: bool)
        requires
            old(self).valid(),
        ensures
            final(self).valid(),
            final(self).rows() == old(self).rows(),
            final(self).fields() == old(self).fields(),
            0 <= old(self).position() <= old(self).rows().len(),
            r == (old(self).position() < old(self).rows().len()),
            final(self).position() == if r {
                old(self).position() + 1
            } else {
                old(self).position()
            },
    ;

    /// The value of the named field in the current record.
    fn get_value(&self, field_name: &str) -> (r: Value)
        requires
            self.valid(),
            1 <= self.position() <= self.rows().len(),
            row_has(self.rows()[self.position() - 1], field_name@),
        ensures
            r@ == row_value(self.rows()[self.position() - 1], field_name@),
    ;

    /// Whether the scan's records have a field of that name.
    fn has_field(&self, field_name: &str) -> (r: bool)
        requires
            self.valid(),
        ensures
            r == schema_has(self.fields(), field_name@),
    ;
}

/// The models of a sequence of rows.
pub open spec fn row_views(rows: Seq<Row>) -> Seq<RowView> {
    rows.map_values(|r: Row| r@)
}

/// A scan over records held in memory.
pub struct TableScan {
    schema: Schema,
    rows: Vec<Row>,
    position: usize,
}

impl TableScan {
    /// A scan over `rows`, whose fields `schema` names, before its first record.
    pub fn new(schema: Schema, rows: Vec<Row>) -> (s: Self)
        ensures
            s.valid(),
            s.rows() == row_views(rows@),
            s.fields() == schema@,
            s.position() == 0,
    {
        TableScan { schema, rows, position: 0 }
    }

    /// The current record.
    pub fn current_row(&self) -> (r: &Row)
        requires
            self.valid(),
            1 <= self.position() <= self.rows().len(),
        ensures
            r@ == self.rows()[self.position() - 1],
    {
        &self.rows[self.position - 1]
    }
}

impl ScanControl for TableScan {
    closed spec fn rows(&self) -> Seq<RowView> {
        row_views(self.rows@)
    }

    closed spec fn position(&self) -> int {
        self.position as int
    }

    closed spec fn fields(&self) -> SchemaView {
        self.schema@
    }

    closed spec fn valid(&self) -> bool {
        self.position <= self.rows@.len()
    }

    fn before_first(&mut self) {
        self.position = 0;
    }

    fn next(&mut self) -> (r: bool) {
        if self.position < self.rows.len() {
            self.position = self.position + 1;
            true
        } else {
            false
        }
    }

    fn get_value(&self, field_name: &str) -> (r: Value) {
        self.rows[self.position - 1].get_value(field_name)
    }

    fn has_field(&self, field_name: &str) -> (r: bool) {
        self.schema.has_field(field_name)
    }
}

} // verus!
