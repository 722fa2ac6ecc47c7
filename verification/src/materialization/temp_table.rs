use vstd::prelude::*;

use crate::bytes::{decimal, digit_char, push_decimal, string_of_chars};
use crate::record::schema::{Schema, SchemaView};
use crate::scan::{row_views, Row, RowView, ScanControl, TableScan};

verus! {

/// A table for intermediate results, held in memory.
pub struct TempTable {
    table_name: String,
    schema: Schema,
    rows: Vec<Row>,
}

/// The name of the temporary table numbered `id`: `temp_` and the number.
pub open spec fn temp_table_name(id: nat) -> Seq<char> {
    seq!['t', 'e', 'm', 'p', '_'] + decimal(id)
}

/// Different numbers give different decimal spellings.
pub proof fn lemma_decimal_injective(a: nat, b: nat)
    requires
        decimal(a) == decimal(b),
    ensures
        a == b,
    decreases a,
{
    if a >= 10 && b >= 10 {
        let da = decimal(a);
        let db = decimal(b);
        assert(da.last() == digit_char(a % 10));
        assert(db.last() == digit_char(b % 10));
        assert(da.drop_last() =~= decimal(a / 10));
        assert(db.drop_last() =~= decimal(b / 10));
        lemma_decimal_injective(a / 10, b / 10);
        assert(digit_char(a % 10) == digit_char(b % 10));
        lemma_digit_injective(a % 10, b % 10);
        assert(a == (a / 10) * 10 + a % 10);
        assert(b == (b / 10) * 10 + b % 10);
    } else if a < 10 && b < 10 {
        assert(decimal(a)[0] == digit_char(a));
        assert(decimal(b)[0] == digit_char(b));
        lemma_digit_injective(a, b);
    } else if a >= 10 {
        lemma_decimal_len(a / 10);
        assert(decimal(a).len() == decimal(a / 10).len() + 1);
        assert(decimal(b).len() == 1);
    } else {
        lemma_decimal_len(b / 10);
        assert(decimal(b).len() == decimal(b / 10).len() + 1);
        assert(decimal(a).len() == 1);
    }
}

proof fn lemma_digit_injective(x: nat, y: nat)
    requires
        x < 10,
        y < 10,
        digit_char(x) == digit_char(y),
    ensures
        x == y,
{
}

proof fn lemma_decimal_len(n: nat)
    ensures
        decimal(n).len() >= 1,
    decreases n,
{
    if n >= 10 {
        lemma_decimal_len(n / 10);
    }
}

/// Tables numbered differently have different names.
pub proof fn lemma_temp_names_distinct(a: nat, b: nat)
    requires
        a != b,
    ensures
        temp_table_name(a) != temp_table_name(b),
{
    if temp_table_name(a) == temp_table_name(b) {
        assert(temp_table_name(a).skip(5) =~= decimal(a));
        assert(temp_table_name(b).skip(5) =~= decimal(b));
        lemma_decimal_injective(a, b);
    }
}

/// Hands out the numbers of temporary tables, each once, counting up from 0.
pub struct TempTableCounter {
    next_id: usize,
}

impl TempTableCounter {
    /// The number the next temporary table gets.
    pub closed spec fn next(&self) -> nat {
        self.next_id as nat
    }

    /// A counter that starts at 0.
    pub fn new() -> (c: Self)
        ensures
            c.next() == 0,
    {
        TempTableCounter { next_id: 0 }
    }

    /// Takes the next number: it is returned and the counter moves past it.
    pub fn next_table_id(&mut self) -> (id: usize)
        requires
            old(self).next() < usize::MAX,
        ensures
            id == old(self).next(),
            final(self).next() == old(self).next() + 1,
    {
        let id = self.next_id;
        self.next_id = self.next_id + 1;
        id
    }
}

impl TempTable {
    /// An empty temporary table with the fields of `schema`, named after the
    /// next number of `counter`: `temp_` and that number. Names taken from one
    /// counter never repeat (see `lemma_temp_names_distinct`).
    pub fn new(counter: &mut TempTableCounter, schema: &Schema) -> (t: Self)
        requires
            old(counter).next() < usize::MAX,
        ensures
            t.name() == temp_table_name(old(counter).next()),
            final(counter).next() == old(counter).next() + 1,
            t.schema() == schema@,
            t.records().len() == 0,
    {
        let id = counter.next_table_id();
        let mut name: Vec<char> = Vec::new();
        name.push('t');
        name.push('e');
        name.push('m');
        name.push('p');
        name.push('_');
        push_decimal(&mut name, id);
        assert(name@ =~= temp_table_name(id as nat));
        let t = TempTable {
            table_name: string_of_chars(name.as_slice()),
            schema: schema.duplicate(),
            rows: Vec::new(),
        };
        assert(row_views(t.rows@) =~= Seq::<RowView>::empty());
        t
    }

    /// The table's name.
    pub closed spec fn name(&self) -> Seq<char> {
        self.table_name@
    }

    /// The table's fields.
    pub closed spec fn schema(&self) -> SchemaView {
        self.schema@
    }

    /// The table's records, in the order they were inserted.
    pub closed spec fn records(&self) -> Seq<RowView> {
        row_views(self.rows@)
    }

    /// The table's name.
    pub fn get_table_name(&self) -> (r: &str)
        ensures
            r@ == self.name(),
    {
        self.table_name.as_str()
    }

    /// The table's fields.
    pub fn get_schema(&self) -> (r: &Schema)
        ensures
            r@ == self.schema(),
    {
        &self.schema
    }

    /// Adds a record at the end of the table.
    pub fn insert(&mut self, row: Row)
        ensures
            final(self).records() == old(self).records().push(row@),
            final(self).name() == old(self).name(),
            final(self).schema() == old(self).schema(),
    {
        self.rows.push(row);
        assert(row_views(self.rows@) =~= old(self).records().push(row@));
    }

    /// A scan over the table's records, before the first one.
    pub fn open(&self) -> (s: TableScan)
        ensures
            s.valid(),
            s.rows() == self.records(),
            s.fields() == self.schema(),
            s.position() == 0,
    {
        let mut rows: Vec<Row> = Vec::new();
        let mut i: usize = 0;
        while i < self.rows.len()
            invariant
                i <= self.rows@.len(),
                row_views(rows@) == row_views(self.rows@).take(i as int),
            decreases self.rows@.len() - i,
        {
            let ghost before = rows@;
            assert(row_views(before).len() == before.len());
            assert(row_views(self.rows@).take(i as int).len() == i);
            let r = self.rows[i].duplicate();
            rows.push(r);
            assert(row_views(rows@) =~= row_views(self.rows@).take(i + 1)) by {
                assert(row_views(before) == row_views(self.rows@).take(i as int));
            }
            i = i + 1;
        }
        assert(row_views(self.rows@).take(i as int) =~= row_views(self.rows@));
        TableScan::new(self.schema.duplicate(), rows)
    }
}

} // verus!
