use std::cmp::Ordering;

use vstd::prelude::*;

use crate::record::field::{lemma_value_order, value_order};
use crate::scan::{row_has, row_value, Row, RowView};

verus! {

/// Orders records by a list of fields: by the first, then by the second
/// where the first is equal, and so on.
pub struct RecordComparator {
    field_names: Vec<String>,
}

/// The names in a list of strings.
pub open spec fn names_of(v: Seq<String>) -> Seq<Seq<char>> {
    v.map_values(|s: String| s@)
}

/// The order of two records by the given fields: -1, 0 or 1.
pub open spec fn records_order(fs: Seq<Seq<char>>, a: RowView, b: RowView) -> int
    decreases fs.len(),
{
    if fs.len() == 0 {
        0
    } else {
        let c = value_order(row_value(a, fs[0]), row_value(b, fs[0]));
        if c != 0 {
            c
        } else {
            records_order(fs.drop_first(), a, b)
        }
    }
}

/// Whether a record has every one of the fields.
pub open spec fn has_all(fs: Seq<Seq<char>>, row: RowView) -> bool {
    forall|i: int| 0 <= i < fs.len() ==> row_has(row, #[trigger] fs[i])
}

/// Ordering by the fields from `i` on compares by field `i` first.
pub proof fn lemma_records_order_step(fs: Seq<Seq<char>>, a: RowView, b: RowView, i: int)
    requires
        0 <= i < fs.len(),
    ensures
        records_order(fs.skip(i), a, b) == (if value_order(row_value(a, fs[i]), row_value(b, fs[i]))
            != 0 {
            value_order(row_value(a, fs[i]), row_value(b, fs[i]))
        } else {
            records_order(fs.skip(i + 1), a, b)
        }),
{
    assert(fs.skip(i)[0] == fs[i]);
    assert(fs.skip(i).drop_first() =~= fs.skip(i + 1));
}

/// Records are ordered by the first of the fields on which their values
/// differ, and equal where they agree on every field.
pub proof fn lemma_records_order_first_difference(fs: Seq<Seq<char>>, a: RowView, b: RowView, i: int)
    requires
        0 <= i <= fs.len(),
        forall|j: int| 0 <= j < i ==> row_value(a, #[trigger] fs[j]) == row_value(b, fs[j]),
    ensures
        i == fs.len() ==> records_order(fs, a, b) == 0,
        i < fs.len() && row_value(a, fs[i]) != row_value(b, fs[i]) ==> records_order(fs, a, b)
            == value_order(row_value(a, fs[i]), row_value(b, fs[i])),
    decreases i,
{
    if i > 0 {
        let f = fs[0];
        lemma_value_order(row_value(a, f), row_value(b, f), row_value(b, f));
        assert(row_value(a, fs[0]) == row_value(b, fs[0]));
        assert forall|j: int| 0 <= j < i - 1 implies row_value(a, #[trigger] fs.drop_first()[j])
            == row_value(b, fs.drop_first()[j]) by {
            assert(fs.drop_first()[j] == fs[j + 1]);
        }
        lemma_records_order_first_difference(fs.drop_first(), a, b, i - 1);
        if i < fs.len() {
            assert(fs.drop_first()[i - 1] == fs[i]);
        }
    } else if i < fs.len() {
        lemma_value_order(row_value(a, fs[0]), row_value(b, fs[0]), row_value(b, fs[0]));
    }
}

/// Ordering records by fields is antisymmetric and transitive, and its
/// result is -1, 0 or 1.
pub proof fn lemma_records_order(fs: Seq<Seq<char>>, a: RowView, b: RowView, c: RowView)
    ensures
        records_order(fs, a, b) == -records_order(fs, b, a),
        records_order(fs, a, b) <= 0 && records_order(fs, b, c) <= 0 ==> records_order(fs, a, c)
            <= 0,
        -1 <= records_order(fs, a, b) <= 1,
    decreases fs.len(),
{
    if fs.len() > 0 {
        let f = fs[0];
        lemma_value_order(row_value(a, f), row_value(b, f), row_value(c, f));
        lemma_value_order(row_value(b, f), row_value(c, f), row_value(a, f));
        lemma_value_order(row_value(a, f), row_value(c, f), row_value(b, f));
        lemma_records_order(fs.drop_first(), a, b, c);
    }
}

impl View for RecordComparator {
    type V = Seq<Seq<char>>;

    closed spec fn view(&self) -> Seq<Seq<char>> {
        names_of(self.field_names@)
    }
}

impl RecordComparator {
    /// A comparator by the given fields, in order.
    pub fn new(field_names: &Vec<String>) -> (c: Self)
        ensures
            c@ == names_of(field_names@),
    {
        let mut names: Vec<String> = Vec::new();
        let mut i: usize = 0;
        while i < field_names.len()
            invariant
                i <= field_names@.len(),
                names@.len() == i,
                forall|j: int| 0 <= j < i ==> (#[trigger] names@[j])@ == field_names@[j]@,
            decreases field_names@.len() - i,
        {
            names.push(field_names[i].clone());
            i = i + 1;
        }
        let c = RecordComparator { field_names: names };
        assert(c@ =~= names_of(field_names@));
        c
    }

    /// The order of two records, as -1, 0 or 1.
    pub fn compare_rows(&self, s1: &Row, s2: &Row) -> (r: i8)
        requires
            has_all(self@, s1@),
            has_all(self@, s2@),
        ensures
            r == records_order(self@, s1@, s2@),
    {
        let ghost fs = self@;
        let mut i: usize = 0;
        assert(fs.skip(0) =~= fs);
        while i < self.field_names.len()
            invariant
                fs == self@,
                i <= fs.len(),
                fs.len() == self.field_names@.len(),
                has_all(fs, s1@),
                has_all(fs, s2@),
                records_order(fs, s1@, s2@) == records_order(fs.skip(i as int), s1@, s2@),
            decreases fs.len() - i,
        {
            let name = self.field_names[i].as_str();
            assert(fs[i as int] == name@);
            assert(row_has(s1@, fs[i as int]));
            assert(row_has(s2@, fs[i as int]));
            let v1 = s1.get_value(name);
            let v2 = s2.get_value(name);
            let c = v1.compare_to(&v2);
            proof {
                lemma_records_order_step(fs, s1@, s2@, i as int);
            }
            if c != 0 {
                return c;
            }
            i = i + 1;
        }
        0
    }

    /// The order of two records.
    pub fn compare(&self, s1: &Row, s2: &Row) -> (r: Ordering)
        requires
            has_all(self@, s1@),
            has_all(self@, s2@),
        ensures
            match r {
                Ordering::Less => records_order(self@, s1@, s2@) < 0,
                Ordering::Equal => records_order(self@, s1@, s2@) == 0,
                Ordering::Greater => records_order(self@, s1@, s2@) > 0,
            },
    {
        let c = self.compare_rows(s1, s2);
        if c < 0 {
            Ordering::Less
        } else if c == 0 {
            Ordering::Equal
        } else {
            Ordering::Greater
        }
    }
}

} // verus!
