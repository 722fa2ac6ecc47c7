use std::cmp::Ordering;

use vstd::prelude::*;

use crate::materialization::record_comparator::{
    has_all, lemma_records_order, records_order, RecordComparator,
};
use crate::materialization::temp_table::{TempTable, TempTableCounter};
use crate::record::field::Value;
use crate::record::schema::{schema_has, SchemaView};
use crate::scan::{row_has, row_value, Row, RowView, ScanControl, TableScan};

verus! {

/// Whether the next merged record comes from the first run: the second is
/// used up, or the first's record orders strictly before the second's.
pub open spec fn takes_first(fs: Seq<Seq<char>>, a: Seq<RowView>, b: Seq<RowView>) -> bool {
    b.len() == 0 || (a.len() > 0 && records_order(fs, a[0], b[0]) < 0)
}

/// The merge of two runs by the comparator's fields; on ties the second
/// run's record comes first.
pub open spec fn merge_rows(fs: Seq<Seq<char>>, a: Seq<RowView>, b: Seq<RowView>) -> Seq<RowView>
    decreases a.len() + b.len(),
{
    if a.len() == 0 {
        b
    } else if b.len() == 0 {
        a
    } else if records_order(fs, a[0], b[0]) < 0 {
        seq![a[0]] + merge_rows(fs, a.drop_first(), b)
    } else {
        seq![b[0]] + merge_rows(fs, a, b.drop_first())
    }
}

/// The records of a run not yet merged: from the scan's current record on,
/// or none once the scan is used up.
pub open spec fn remainder(rows: Seq<RowView>, has_next: bool, position: int) -> Seq<RowView> {
    if has_next {
        rows.skip(position - 1)
    } else {
        Seq::empty()
    }
}

/// Every record has every one of the fields.
pub open spec fn all_have(fs: Seq<Seq<char>>, rows: Seq<RowView>) -> bool {
    forall|i: int| 0 <= i < rows.len() ==> has_all(fs, #[trigger] rows[i])
}

/// A merge takes its first record from the run that `takes_first` names.
pub proof fn lemma_merge_unfold(fs: Seq<Seq<char>>, a: Seq<RowView>, b: Seq<RowView>)
    requires
        a.len() + b.len() > 0,
    ensures
        takes_first(fs, a, b) ==> merge_rows(fs, a, b) == seq![a[0]] + merge_rows(
            fs,
            a.drop_first(),
            b,
        ),
        !takes_first(fs, a, b) ==> merge_rows(fs, a, b) == seq![b[0]] + merge_rows(
            fs,
            a,
            b.drop_first(),
        ),
{
    if a.len() == 0 {
        assert(b.drop_first() == merge_rows(fs, a, b.drop_first()));
        assert(b =~= seq![b[0]] + b.drop_first());
    } else if b.len() == 0 {
        assert(a.drop_first() == merge_rows(fs, a.drop_first(), b));
        assert(a =~= seq![a[0]] + a.drop_first());
    }
}

/// Whether records come in the order of the fields.
pub open spec fn sorted_by(fs: Seq<Seq<char>>, s: Seq<RowView>) -> bool {
    forall|i: int, j: int| 0 <= i < j < s.len() ==> records_order(fs, s[i], s[j]) <= 0
}

/// A merge holds the records of both runs, each as often as the runs do.
pub proof fn lemma_merge_permutes(fs: Seq<Seq<char>>, a: Seq<RowView>, b: Seq<RowView>)
    ensures
        merge_rows(fs, a, b).to_multiset() == a.to_multiset().add(b.to_multiset()),
    decreases a.len() + b.len(),
{
    broadcast use vstd::multiset::group_multiset_axioms;

    vstd::seq_lib::lemma_multiset_commutative(a, b);
    if a.len() == 0 {
        assert(a + b =~= b);
    } else if b.len() == 0 {
        assert(a + b =~= a);
    } else if records_order(fs, a[0], b[0]) < 0 {
        lemma_merge_permutes(fs, a.drop_first(), b);
        let rest = merge_rows(fs, a.drop_first(), b);
        vstd::seq_lib::lemma_multiset_commutative(seq![a[0]], rest);
        vstd::seq_lib::lemma_multiset_commutative(seq![a[0]], a.drop_first());
        assert(seq![a[0]] + a.drop_first() =~= a);
        assert((seq![a[0]] + rest).to_multiset() =~= a.to_multiset().add(b.to_multiset()));
    } else {
        lemma_merge_permutes(fs, a, b.drop_first());
        let rest = merge_rows(fs, a, b.drop_first());
        vstd::seq_lib::lemma_multiset_commutative(seq![b[0]], rest);
        vstd::seq_lib::lemma_multiset_commutative(seq![b[0]], b.drop_first());
        assert(seq![b[0]] + b.drop_first() =~= b);
        assert((seq![b[0]] + rest).to_multiset() =~= a.to_multiset().add(b.to_multiset()));
    }
}

/// A sort scan over two runs sorted by its fields yields every record of
/// both runs, each as often as the runs hold it and no other, in order:
/// as many records as the two runs hold together.
pub proof fn lemma_sort_scan_yields_merged_runs(fs: Seq<Seq<char>>, a: Seq<RowView>, b: Seq<RowView>)
    requires
        sorted_by(fs, a),
        sorted_by(fs, b),
    ensures
        sorted_by(fs, merge_rows(fs, a, b)),
        merge_rows(fs, a, b).to_multiset() == a.to_multiset().add(b.to_multiset()),
        merge_rows(fs, a, b).len() == a.len() + b.len(),
{
    broadcast use vstd::multiset::group_multiset_axioms, vstd::seq_lib::group_to_multiset_ensures;

    lemma_merge_permutes(fs, a, b);
    lemma_merge_sorted(fs, a, b);
    vstd::seq_lib::to_multiset_len(a);
    vstd::seq_lib::to_multiset_len(b);
    vstd::seq_lib::to_multiset_len(merge_rows(fs, a, b));
}

proof fn lemma_first_below(fs: Seq<Seq<char>>, x: RowView, s: Seq<RowView>, y: RowView)
    requires
        s.len() > 0,
        sorted_by(fs, s),
        records_order(fs, x, s[0]) <= 0,
        s.contains(y),
    ensures
        records_order(fs, x, y) <= 0,
{
    let k = choose|k: int| 0 <= k < s.len() && s[k] == y;
    if k > 0 {
        lemma_records_order(fs, x, s[0], y);
    }
}

/// Merging two sorted runs gives records in order.
pub proof fn lemma_merge_sorted(fs: Seq<Seq<char>>, a: Seq<RowView>, b: Seq<RowView>)
    requires
        sorted_by(fs, a),
        sorted_by(fs, b),
    ensures
        sorted_by(fs, merge_rows(fs, a, b)),
    decreases a.len() + b.len(),
{
    broadcast use vstd::multiset::group_multiset_axioms, vstd::seq_lib::group_to_multiset_ensures;

    if a.len() > 0 && b.len() > 0 {
        let (x, rest) = if records_order(fs, a[0], b[0]) < 0 {
            assert(sorted_by(fs, a.drop_first()));
            lemma_merge_sorted(fs, a.drop_first(), b);
            lemma_merge_permutes(fs, a.drop_first(), b);
            (a[0], merge_rows(fs, a.drop_first(), b))
        } else {
            assert(sorted_by(fs, b.drop_first()));
            lemma_merge_sorted(fs, a, b.drop_first());
            lemma_merge_permutes(fs, a, b.drop_first());
            (b[0], merge_rows(fs, a, b.drop_first()))
        };
        let m = seq![x] + rest;
        assert(m == merge_rows(fs, a, b));
        assert forall|j: int| 0 <= j < rest.len() implies records_order(fs, x, #[trigger] rest[j])
            <= 0 by {
            let y = rest[j];
            assert(rest.contains(y));
            assert(rest.to_multiset().count(y) > 0);
            lemma_records_order(fs, a[0], b[0], b[0]);
            lemma_records_order(fs, x, x, x);
            if records_order(fs, a[0], b[0]) < 0 {
                if a.drop_first().to_multiset().count(y) > 0 {
                    assert(a.drop_first().contains(y));
                    let k = choose|k: int| 0 <= k < a.drop_first().len() && a.drop_first()[k] == y;
                    assert(a[k + 1] == y);
                } else {
                    assert(b.contains(y));
                    lemma_first_below(fs, x, b, y);
                }
            } else {
                if b.drop_first().to_multiset().count(y) > 0 {
                    assert(b.drop_first().contains(y));
                    let k = choose|k: int| 0 <= k < b.drop_first().len() && b.drop_first()[k] == y;
                    assert(b[k + 1] == y);
                } else {
                    assert(a.contains(y));
                    lemma_first_below(fs, x, a, y);
                }
            }
        }
        assert forall|i: int, j: int| 0 <= i < j < m.len() implies records_order(
            fs,
            m[i],
            m[j],
        ) <= 0 by {
            if i == 0 {
                assert(m[j] == rest[j - 1]);
            } else {
                assert(m[i] == rest[i - 1]);
                assert(m[j] == rest[j - 1]);
            }
        }
    } else if a.len() == 0 {
        assert(merge_rows(fs, a, b) == b);
    } else {
        assert(merge_rows(fs, a, b) == a);
    }
}

/// Merges two sorted runs of records into one sorted sequence.
pub struct SortScan {
    scan0: TableScan,
    scan1: TableScan,
    has_next0: bool,
    has_next1: bool,
    comparator: RecordComparator,
    current_scan_index: Option<usize>,
    emitted: Ghost<int>,
}

impl SortScan {
    /// The records of the first run not yet merged.
    pub closed spec fn rest0(&self) -> Seq<RowView> {
        remainder(self.scan0.rows(), self.has_next0, self.scan0.position())
    }

    /// The records of the second run not yet merged.
    pub closed spec fn rest1(&self) -> Seq<RowView> {
        remainder(self.scan1.rows(), self.has_next1, self.scan1.position())
    }

    /// The comparator's fields.
    pub closed spec fn order_fields(&self) -> Seq<Seq<char>> {
        self.comparator@
    }

    closed spec fn run_ok(scan: TableScan, has_next: bool) -> bool {
        &&& scan.valid()
        &&& has_next ==> 1 <= scan.position() <= scan.rows().len()
        &&& !has_next ==> scan.position() == scan.rows().len()
    }

    closed spec fn merged(&self) -> Seq<RowView> {
        merge_rows(self.comparator@, self.scan0.rows(), self.scan1.rows())
    }

    closed spec fn pending(&self) -> Seq<RowView> {
        merge_rows(self.comparator@, self.rest0(), self.rest1())
    }

    /// Merges one or two runs, sorted by `comparator`, into one scan.
    pub fn new(runs: Vec<TempTable>, comparator: RecordComparator, counter: &mut TempTableCounter) -> (s: Self)
        requires
            1 <= runs@.len() <= 2,
            runs@.len() == 1 ==> old(counter).next() < usize::MAX,
            forall|i: int| 0 <= i < runs@.len() ==> all_have(comparator@, #[trigger] runs@[i].records()),
        ensures
            s.valid(),
            s.position() == 0,
            s.rows() == merge_rows(
                comparator@,
                runs@[0].records(),
                if runs@.len() == 2 {
                    runs@[1].records()
                } else {
                    Seq::empty()
                },
            ),
            s.order_fields() == comparator@,
            final(counter).next() == old(counter).next() + if runs@.len() == 1 {
                1nat
            } else {
                0nat
            },
    {
        let mut runs = runs;
        let ghost initial = runs@;
        let run0 = runs.remove(0);
        let run1 = if runs.len() > 0 {
            runs.remove(0)
        } else {
            TempTable::new(counter, run0.get_schema())
        };
        assert(run1.records() == if initial.len() == 2 {
            initial[1].records()
        } else {
            Seq::empty()
        });
        let mut scan0 = run0.open();
        let has_next0 = scan0.next();
        let mut scan1 = run1.open();
        let has_next1 = scan1.next();
        let s = SortScan {
            scan0,
            scan1,
            has_next0,
            has_next1,
            comparator,
            current_scan_index: None,
            emitted: Ghost(0),
        };
        assert(s.rest0() =~= s.scan0.rows());
        assert(s.rest1() =~= s.scan1.rows());
        s
    }
}

impl SortScan {
    proof fn lemma_current(&self)
        requires
            self.valid(),
            1 <= self.position() <= self.rows().len(),
        ensures
            match self.current_scan_index {
                Some(j) => if j == 0 {
                    1 <= self.scan0.position() <= self.scan0.rows().len() && self.rows()[self.position()
                        - 1] == self.scan0.rows()[self.scan0.position() - 1]
                } else {
                    1 <= self.scan1.position() <= self.scan1.rows().len() && self.rows()[self.position()
                        - 1] == self.scan1.rows()[self.scan1.position() - 1]
                },
                None => false,
            },
    {
        let fs = self.comparator@;
        let m = self.merged();
        let e = self.emitted@;
        match self.current_scan_index {
            Some(j) => {
                let has = if j == 0 {
                    self.has_next0
                } else {
                    self.has_next1
                };
                if has {
                    lemma_merge_unfold(fs, self.rest0(), self.rest1());
                    assert(m[e - 1] == m.skip(e - 1)[0]);
                    if j == 0 {
                        assert(self.rest0()[0] == self.scan0.rows()[self.scan0.position() - 1]);
                    } else {
                        assert(self.rest1()[0] == self.scan1.rows()[self.scan1.position() - 1]);
                    }
                }
            },
            None => {},
        }
    }
}

impl SortScan {
    /// The current record.
    pub fn current_row(&self) -> (r: &Row)
        requires
            self.valid(),
            1 <= self.position() <= self.rows().len(),
        ensures
            r@ == self.rows()[self.position() - 1],
    {
        proof {
            self.lemma_current();
        }
        match self.current_scan_index {
            Some(0) => self.scan0.current_row(),
            Some(_) => self.scan1.current_row(),
            None => {
                proof {
                    assert(false);
                }
                self.scan0.current_row()
            },
        }
    }
}

impl ScanControl for SortScan {
    closed spec fn rows(&self) -> Seq<RowView> {
        self.merged()
    }

    closed spec fn position(&self) -> int {
        self.emitted@
    }

    closed spec fn fields(&self) -> SchemaView {
        self.scan0.fields()
    }

    closed spec fn valid(&self) -> bool {
        let fs = self.comparator@;
        let m = self.merged();
        let r = self.pending();
        &&& Self::run_ok(self.scan0, self.has_next0)
        &&& Self::run_ok(self.scan1, self.has_next1)
        &&& all_have(fs, self.scan0.rows())
        &&& all_have(fs, self.scan1.rows())
        &&& 0 <= self.emitted@ <= m.len()
        &&& match self.current_scan_index {
            None => self.emitted@ == 0 && r == m,
            Some(j) => j < 2 && if (if j == 0 {
                self.has_next0
            } else {
                self.has_next1
            }) {
                &&& self.emitted@ >= 1
                &&& m.skip(self.emitted@ - 1) == r
                &&& r.len() > 0
                &&& (j == 0) == takes_first(fs, self.rest0(), self.rest1())
            } else {
                &&& self.emitted@ == m.len()
                &&& r.len() == 0
                &&& if j == 0 {
                    self.scan0.rows().len() >= 1 && m[m.len() - 1] == self.scan0.rows()[
                        self.scan0.rows().len() - 1
                    ]
                } else {
                    self.scan1.rows().len() >= 1 && m[m.len() - 1] == self.scan1.rows()[
                        self.scan1.rows().len() - 1
                    ]
                }
            },
        }
    }

    fn before_first(&mut self) {
        self.current_scan_index = None;
        self.scan0.before_first();
        self.has_next0 = self.scan0.next();
        self.scan1.before_first();
        self.has_next1 = self.scan1.next();
        self.emitted = Ghost(0);
        assert(self.rest0() =~= self.scan0.rows());
        assert(self.rest1() =~= self.scan1.rows());
    }

    #[verifier::rlimit(80)]
    #[verifier::spinoff_prover]
    fn next(&mut self) -> (r: bool) {
        let ghost fs = self.comparator@;
        let ghost m = self.merged();
        let ghost r0 = self.rest0();
        let ghost r1 = self.rest1();
        let ghost e = self.emitted@;
        let ghost was_pending = match self.current_scan_index {
            Some(j) => if j == 0 {
                self.has_next0
            } else {
                self.has_next1
            },
            None => false,
        };
        proof {
            if was_pending {
                lemma_merge_unfold(fs, r0, r1);
                assert(m.skip(e) =~= m.skip(e - 1).drop_first());
            } else if self.current_scan_index.is_none() {
                assert(m.skip(e) =~= m);
            }
        }
        match self.current_scan_index {
            Some(0) => {
                self.has_next0 = self.scan0.next();
                proof {
                    if was_pending {
                        assert(self.rest0() =~= r0.drop_first());
                        assert(self.pending() == merge_rows(fs, r0.drop_first(), r1));
                    }
                }
            },
            Some(_) => {
                self.has_next1 = self.scan1.next();
                proof {
                    if was_pending {
                        assert(self.rest1() =~= r1.drop_first());
                        assert(self.pending() == merge_rows(fs, r0, r1.drop_first()));
                    }
                }
            },
            None => {},
        }
        proof {
            if was_pending || self.current_scan_index.is_none() {
                assert(m.skip(e) == self.pending());
            }
        }
        if !self.has_next0 && !self.has_next1 {
            proof {
                assert(self.rest0().len() == 0);
                assert(self.rest1().len() == 0);
                assert(self.pending() =~= Seq::<RowView>::empty());
                if was_pending || self.current_scan_index.is_none() {
                    assert(m.skip(e).len() == 0);
                    assert(e == m.len());
                }
            }
            return false;
        }
        proof {
            assert(was_pending || self.current_scan_index.is_none());
            if self.has_next0 {
                assert(self.rest0()[0] == self.scan0.rows()[self.scan0.position() - 1]);
            }
            if self.has_next1 {
                assert(self.rest1()[0] == self.scan1.rows()[self.scan1.position() - 1]);
            }
        }
        if self.has_next0 && self.has_next1 {
            let c = self.comparator.compare(self.scan0.current_row(), self.scan1.current_row());
            match c {
                Ordering::Less => {
                    self.current_scan_index = Some(0);
                },
                _ => {
                    self.current_scan_index = Some(1);
                },
            }
        } else if self.has_next0 {
            self.current_scan_index = Some(0);
        } else {
            self.current_scan_index = Some(1);
        }
        self.emitted = Ghost(self.emitted@ + 1);
        true
    }

    fn get_value(&self, field_name: &str) -> (r: Value) {
        proof {
            self.lemma_current();
        }
        match self.current_scan_index {
            Some(0) => self.scan0.get_value(field_name),
            Some(_) => self.scan1.get_value(field_name),
            None => {
                proof {
                    assert(false);
                }
                Value::Null
            },
        }
    }

    fn has_field(&self, field_name: &str) -> (r: bool) {
        self.scan0.has_field(field_name)
    }
}

} // verus!
