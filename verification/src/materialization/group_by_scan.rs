use vstd::prelude::*;

use crate::bytes::str_eq;
use crate::materialization::aggregation_function::{
    AggregationFn, AggregationFnControl, AggregationView,
};
use crate::materialization::record_comparator::names_of;
use crate::materialization::sort_scan::SortScan;
use crate::record::field::{Value, ValueView};
use crate::scan::{row_has, row_value, Row, RowView, ScanControl};
use crate::seqs::{lemma_map_push, lemma_map_skip};

verus! {

/// The values of the grouping fields in a record.
pub open spec fn group_key(gf: Seq<Seq<char>>, row: RowView) -> Seq<ValueView> {
    gf.map_values(|f: Seq<char>| row_value(row, f))
}

/// The end of the group that starts at `s`, looking from `i` on: the first
/// record whose grouping values differ from those of record `s`.
pub open spec fn group_end_from(rows: Seq<RowView>, gf: Seq<Seq<char>>, s: int, i: int) -> int
    decreases rows.len() - i,
{
    if 0 <= i < rows.len() && group_key(gf, rows[i]) == group_key(gf, rows[s]) {
        group_end_from(rows, gf, s, i + 1)
    } else {
        i
    }
}

/// The end of the group that starts at record `s`.
pub open spec fn group_end(rows: Seq<RowView>, gf: Seq<Seq<char>>, s: int) -> int {
    group_end_from(rows, gf, s, s + 1)
}

/// The value that an aggregate reads from a record.
pub open spec fn input_value(a: AggregationView, row: RowView) -> ValueView {
    row_value(row, AggregationFn::input_of(a))
}

/// The aggregates after taking a record as their group's first.
pub open spec fn start_all(aggs: Seq<AggregationView>, row: RowView) -> Seq<AggregationView> {
    aggs.map_values(|a: AggregationView| AggregationFn::start_of(a, input_value(a, row)))
}

/// The aggregates after taking a record as their group's next.
pub open spec fn step_all(aggs: Seq<AggregationView>, row: RowView) -> Seq<AggregationView> {
    aggs.map_values(|a: AggregationView| AggregationFn::step_of(a, input_value(a, row)))
}

/// The aggregates after taking a group's records in order.
pub open spec fn fold_all(aggs: Seq<AggregationView>, rows: Seq<RowView>) -> Seq<AggregationView>
    decreases rows.len(),
{
    if rows.len() == 0 {
        aggs
    } else if rows.len() == 1 {
        start_all(aggs, rows[0])
    } else {
        step_all(fold_all(aggs, rows.drop_last()), rows.last())
    }
}

/// Whether every aggregate can take a record first.
pub open spec fn start_ok(aggs: Seq<AggregationView>, row: RowView) -> bool {
    forall|k: int|
        0 <= k < aggs.len() ==> row_has(row, AggregationFn::input_of(#[trigger] aggs[k]))
            && AggregationFn::first_ok(aggs[k], input_value(aggs[k], row))
}

/// Whether every aggregate can take a record next.
pub open spec fn step_ok(aggs: Seq<AggregationView>, row: RowView) -> bool {
    forall|k: int|
        0 <= k < aggs.len() ==> row_has(row, AggregationFn::input_of(#[trigger] aggs[k]))
            && AggregationFn::next_ok(aggs[k], input_value(aggs[k], row))
}

/// Whether the aggregates can take a group's records in order.
pub open spec fn fold_ok(aggs: Seq<AggregationView>, rows: Seq<RowView>) -> bool
    decreases rows.len(),
{
    if rows.len() == 0 {
        true
    } else if rows.len() == 1 {
        start_ok(aggs, rows[0])
    } else {
        fold_ok(aggs, rows.drop_last()) && step_ok(fold_all(aggs, rows.drop_last()), rows.last())
    }
}

/// The models of a list of aggregates.
pub open spec fn agg_views(aggs: Seq<AggregationFn>) -> Seq<AggregationView> {
    aggs.map_values(|a: AggregationFn| a@)
}

/// The fields the aggregates read.
pub open spec fn inputs(aggs: Seq<AggregationView>) -> Seq<Seq<char>> {
    aggs.map_values(|a: AggregationView| AggregationFn::input_of(a))
}

/// The names under which the aggregates' values appear.
pub open spec fn outputs(aggs: Seq<AggregationView>) -> Seq<Seq<char>> {
    aggs.map_values(|a: AggregationView| AggregationFn::output_of(a))
}

/// Whether a record has every one of the fields.
pub open spec fn has_fields(fs: Seq<Seq<char>>, row: RowView) -> bool {
    forall|i: int| 0 <= i < fs.len() ==> row_has(row, #[trigger] fs[i])
}

/// Groups the records of a sorted scan by the values of some fields and
/// computes aggregates over each group.
pub struct GroupByScan {
    scan: SortScan,
    group_fields: Vec<String>,
    aggregation_functions: Vec<AggregationFn>,
    more_group: bool,
    group_values: Vec<Value>,
}

fn take_first_all(aggs: Vec<AggregationFn>, row: &Row) -> (r: Vec<AggregationFn>)
    requires
        start_ok(agg_views(aggs@), row@),
    ensures
        agg_views(r@) == start_all(agg_views(aggs@), row@),
        inputs(agg_views(r@)) == inputs(agg_views(aggs@)),
        outputs(agg_views(r@)) == outputs(agg_views(aggs@)),
{
    let ghost initial = agg_views(aggs@);
    let mut rest = aggs;
    let mut out: Vec<AggregationFn> = Vec::new();
    while rest.len() > 0
        invariant
            out@.len() + rest@.len() == initial.len(),
            agg_views(rest@) == initial.skip(out@.len() as int),
            agg_views(out@) == start_all(initial, row@).take(out@.len() as int),
            inputs(agg_views(out@)) == inputs(initial).take(out@.len() as int),
            outputs(agg_views(out@)) == outputs(initial).take(out@.len() as int),
            start_ok(initial, row@),
        decreases rest@.len(),
    {
        let ghost k = out@.len() as int;
        let ghost before = out@;
        assert(agg_views(rest@)[0] == initial[k]);
        let ghost rest_before = rest@;
        let ghost out_before = out@;
        let mut f = rest.remove(0);
        f.process_first(row);
        out.push(f);
        proof {
            assert(rest@ =~= rest_before.skip(1));
            lemma_map_skip(rest_before, 1, |a: AggregationFn| a@);
            assert(initial.skip(k).skip(1) =~= initial.skip(k + 1));
            lemma_map_push(out_before, f, |a: AggregationFn| a@);
        }
        assert(agg_views(rest@) =~= initial.skip(k + 1));
        assert(agg_views(out@) =~= start_all(initial, row@).take(k + 1));
        assert(inputs(agg_views(out@)) =~= inputs(initial).take(k + 1));
        assert(outputs(agg_views(out@)) =~= outputs(initial).take(k + 1));
    }
    assert(start_all(initial, row@).take(initial.len() as int) =~= start_all(initial, row@));
    assert(inputs(initial).take(initial.len() as int) =~= inputs(initial));
    assert(outputs(initial).take(initial.len() as int) =~= outputs(initial));
    out
}

#[verifier::rlimit(40)]
fn take_next_all(aggs: Vec<AggregationFn>, row: &Row) -> (r: Vec<AggregationFn>)
    requires
        step_ok(agg_views(aggs@), row@),
    ensures
        agg_views(r@) == step_all(agg_views(aggs@), row@),
        inputs(agg_views(r@)) == inputs(agg_views(aggs@)),
        outputs(agg_views(r@)) == outputs(agg_views(aggs@)),
{
    let ghost initial = agg_views(aggs@);
    let mut rest = aggs;
    let mut out: Vec<AggregationFn> = Vec::new();
    while rest.len() > 0
        invariant
            out@.len() + rest@.len() == initial.len(),
            agg_views(rest@) == initial.skip(out@.len() as int),
            agg_views(out@) == step_all(initial, row@).take(out@.len() as int),
            inputs(agg_views(out@)) == inputs(initial).take(out@.len() as int),
            outputs(agg_views(out@)) == outputs(initial).take(out@.len() as int),
            step_ok(initial, row@),
        decreases rest@.len(),
    {
        let ghost k = out@.len() as int;
        assert(agg_views(rest@)[0] == initial[k]);
        let ghost rest_before = rest@;
        let ghost out_before = out@;
        let mut f = rest.remove(0);
        f.process_next(row);
        out.push(f);
        proof {
            assert(rest@ =~= rest_before.skip(1));
            lemma_map_skip(rest_before, 1, |a: AggregationFn| a@);
            assert(initial.skip(k).skip(1) =~= initial.skip(k + 1));
            lemma_map_push(out_before, f, |a: AggregationFn| a@);
        }
        assert(agg_views(rest@) =~= initial.skip(k + 1));
        assert(agg_views(out@) =~= step_all(initial, row@).take(k + 1));
        assert(inputs(agg_views(out@)) =~= inputs(initial).take(k + 1));
        assert(outputs(agg_views(out@)) =~= outputs(initial).take(k + 1));
    }
    assert(step_all(initial, row@).take(initial.len() as int) =~= step_all(initial, row@));
    assert(inputs(initial).take(initial.len() as int) =~= inputs(initial));
    assert(outputs(initial).take(initial.len() as int) =~= outputs(initial));
    out
}

fn key_of(group_fields: &Vec<String>, row: &Row) -> (r: Vec<Value>)
    requires
        has_fields(names_of(group_fields@), row@),
    ensures
        r@.map_values(|v: Value| v@) == group_key(names_of(group_fields@), row@),
        r@.len() == group_fields@.len(),
{
    let ghost gf = names_of(group_fields@);
    let mut out: Vec<Value> = Vec::new();
    let mut i: usize = 0;
    while i < group_fields.len()
        invariant
            gf == names_of(group_fields@),
            i <= group_fields@.len(),
            has_fields(gf, row@),
            out@.map_values(|v: Value| v@) == group_key(gf, row@).take(i as int),
        decreases group_fields@.len() - i,
    {
        assert(gf[i as int] == group_fields@[i as int]@);
        let v = row.get_value(group_fields[i].as_str());
        let ghost before = out@;
        out.push(v);
        proof {
            lemma_map_push(before, v, |v: Value| v@);
        }
        assert(out@.map_values(|v: Value| v@) =~= group_key(gf, row@).take(i + 1));
        i = i + 1;
    }
    assert(group_key(gf, row@).take(i as int) =~= group_key(gf, row@));
    out
}

fn same_key(a: &Vec<Value>, b: &Vec<Value>) -> (r: bool)
    requires
        a@.len() == b@.len(),
    ensures
        r == (a@.map_values(|v: Value| v@) == b@.map_values(|v: Value| v@)),
{
    let mut i: usize = 0;
    while i < a.len()
        invariant
            i <= a@.len(),
            a@.len() == b@.len(),
            forall|j: int| 0 <= j < i ==> a@[j]@ == b@[j]@,
        decreases a@.len() - i,
    {
        if !a[i].equals(&b[i]) {
            assert(a@.map_values(|v: Value| v@)[i as int] != b@.map_values(|v: Value| v@)[i as int]);
            return false;
        }
        i = i + 1;
    }
    assert(a@.map_values(|v: Value| v@) =~= b@.map_values(|v: Value| v@));
    true
}

impl GroupByScan {
    /// The scan that the groups are read from.
    pub closed spec fn input(&self) -> SortScan {
        self.scan
    }

    /// The grouping fields.
    pub closed spec fn grouping(&self) -> Seq<Seq<char>> {
        names_of(self.group_fields@)
    }

    /// The aggregates' states.
    pub closed spec fn aggregates(&self) -> Seq<AggregationView> {
        agg_views(self.aggregation_functions@)
    }

    /// Whether a group is left to read: the input's current record starts it.
    pub closed spec fn more(&self) -> bool {
        self.more_group
    }

    /// The grouping values of the group just read.
    pub closed spec fn key(&self) -> Seq<ValueView> {
        self.group_values@.map_values(|v: Value| v@)
    }

    /// Whether the state is consistent.
    pub closed spec fn valid(&self) -> bool {
        &&& self.scan.valid()
        &&& self.more_group ==> 1 <= self.scan.position() <= self.scan.rows().len()
    }

    /// Groups the records of `sort_scan` by `group_fields`, with the given aggregates.
    pub fn new(
        sort_scan: SortScan,
        group_fields: &Vec<String>,
        aggregation_functions: &Vec<AggregationFn>,
    ) -> (g: Self)
        requires
            sort_scan.valid(),
        ensures
            g.valid(),
            g.input().rows() == sort_scan.rows(),
            g.grouping() == names_of(group_fields@),
            g.aggregates() == agg_views(aggregation_functions@),
            g.more() == (sort_scan.rows().len() > 0),
            g.more() ==> g.input().position() == 1,
    {
        let mut names: Vec<String> = Vec::new();
        let mut i: usize = 0;
        while i < group_fields.len()
            invariant
                i <= group_fields@.len(),
                names_of(names@) == names_of(group_fields@).take(i as int),
            decreases group_fields@.len() - i,
        {
            let ghost before = names@;
            let c = group_fields[i].clone();
            names.push(c);
            proof {
                lemma_map_push(before, c, |s: String| s@);
            }
            assert(names_of(names@) =~= names_of(group_fields@).take(i + 1));
            i = i + 1;
        }
        assert(names_of(group_fields@).take(i as int) =~= names_of(group_fields@));
        let mut aggs: Vec<AggregationFn> = Vec::new();
        let mut k: usize = 0;
        while k < aggregation_functions.len()
            invariant
                k <= aggregation_functions@.len(),
                agg_views(aggs@) == agg_views(aggregation_functions@).take(k as int),
            decreases aggregation_functions@.len() - k,
        {
            let ghost before = aggs@;
            let d = aggregation_functions[k].duplicate();
            aggs.push(d);
            proof {
                lemma_map_push(before, d, |a: AggregationFn| a@);
            }
            assert(agg_views(aggs@) =~= agg_views(aggregation_functions@).take(k + 1));
            k = k + 1;
        }
        assert(agg_views(aggregation_functions@).take(k as int) =~= agg_views(aggregation_functions@));
        let mut g = GroupByScan {
            scan: sort_scan,
            group_fields: names,
            aggregation_functions: aggs,
            more_group: false,
            group_values: Vec::new(),
        };
        g.before_first();
        g
    }

    /// Moves before the first group.
    pub fn before_first(&mut self)
        requires
            old(self).valid(),
        ensures
            final(self).valid(),
            final(self).input().rows() == old(self).input().rows(),
            final(self).grouping() == old(self).grouping(),
            final(self).aggregates() == old(self).aggregates(),
            final(self).more() == (old(self).input().rows().len() > 0),
            final(self).more() ==> final(self).input().position() == 1,
    {
        self.scan.before_first();
        self.more_group = self.scan.next();
    }
}

/// A group ends after it starts, and within the records.
pub proof fn lemma_group_end_bounds(rows: Seq<RowView>, gf: Seq<Seq<char>>, s: int, i: int)
    requires
        0 <= i <= rows.len(),
    ensures
        i <= group_end_from(rows, gf, s, i) <= rows.len(),
    decreases rows.len() - i,
{
    if i < rows.len() && group_key(gf, rows[i]) == group_key(gf, rows[s]) {
        lemma_group_end_bounds(rows, gf, s, i + 1);
    }
}

/// The starts of the groups from record `s` on: each group starts where the
/// one before it ends.
pub open spec fn group_starts(rows: Seq<RowView>, gf: Seq<Seq<char>>, s: int) -> Seq<int>
    decreases rows.len() - s,
{
    if 0 <= s < rows.len() {
        let e = group_end(rows, gf, s);
        if s < e <= rows.len() {
            seq![s] + group_starts(rows, gf, e)
        } else {
            seq![s]
        }
    } else {
        Seq::empty()
    }
}

proof fn lemma_group_end_run(rows: Seq<RowView>, gf: Seq<Seq<char>>, s: int, i: int)
    requires
        0 <= s < rows.len(),
        s < i <= rows.len(),
        forall|j: int| s <= j < i ==> group_key(gf, #[trigger] rows[j]) == group_key(gf, rows[s]),
    ensures
        forall|j: int| s <= j < group_end_from(rows, gf, s, i) ==> group_key(gf, #[trigger] rows[j])
            == group_key(gf, rows[s]),
        group_end_from(rows, gf, s, i) < rows.len() ==> group_key(
            gf,
            rows[group_end_from(rows, gf, s, i)],
        ) != group_key(gf, rows[s]),
    decreases rows.len() - i,
{
    if i < rows.len() && group_key(gf, rows[i]) == group_key(gf, rows[s]) {
        lemma_group_end_run(rows, gf, s, i + 1);
    }
}

/// Each group is a maximal run of records with equal grouping values, and
/// the groups follow one another to the last record: the first starts at the
/// first record, each starts where the one before it ends, and the records of
/// one group share its grouping values while the record just after it has
/// others. `next` yields one group per run, in order, and then no more.
pub proof fn lemma_groups_are_runs(rows: Seq<RowView>, gf: Seq<Seq<char>>, s: int)
    requires
        0 <= s <= rows.len(),
    ensures
        ({
            let g = group_starts(rows, gf, s);
            &&& s < rows.len() ==> g.len() > 0 && g[0] == s
            &&& s == rows.len() ==> g.len() == 0
            &&& forall|k: int| #![trigger g[k]] 0 <= k < g.len() ==> {
                let e = group_end(rows, gf, g[k]);
                &&& g[k] < e <= rows.len()
                &&& (if k + 1 < g.len() { g[k + 1] == e } else { e == rows.len() })
                &&& forall|j: int| g[k] <= j < e ==> group_key(gf, #[trigger] rows[j]) == group_key(gf, rows[g[k]])
                &&& e < rows.len() ==> group_key(gf, rows[e]) != group_key(gf, rows[g[k]])
            }
        }),
    decreases rows.len() - s,
{
    if s < rows.len() {
        let e = group_end(rows, gf, s);
        lemma_group_end_bounds(rows, gf, s, s + 1);
        lemma_group_end_run(rows, gf, s, s + 1);
        lemma_groups_are_runs(rows, gf, e);
        let g = group_starts(rows, gf, s);
        let rest = group_starts(rows, gf, e);
        assert(g == seq![s] + rest);
        assert forall|k: int| #![trigger g[k]] 0 <= k < g.len() implies {
            let e2 = group_end(rows, gf, g[k]);
            &&& g[k] < e2 <= rows.len()
            &&& (if k + 1 < g.len() { g[k + 1] == e2 } else { e2 == rows.len() })
            &&& forall|j: int| g[k] <= j < e2 ==> group_key(gf, #[trigger] rows[j]) == group_key(gf, rows[g[k]])
            &&& e2 < rows.len() ==> group_key(gf, rows[e2]) != group_key(gf, rows[g[k]])
        } by {
            if k > 0 {
                assert(g[k] == rest[k - 1]);
                if k + 1 < g.len() {
                    assert(g[k + 1] == rest[k]);
                }
            } else {
                if 1 < g.len() {
                    assert(g[1] == rest[0]);
                }
            }
        }
    }
}

/// A prefix of records the aggregates can take can be taken too.
pub proof fn lemma_fold_ok_prefix(aggs: Seq<AggregationView>, rows: Seq<RowView>, k: int)
    requires
        fold_ok(aggs, rows),
        0 <= k <= rows.len(),
    ensures
        fold_ok(aggs, rows.take(k)),
    decreases rows.len(),
{
    if k == rows.len() {
        assert(rows.take(k) =~= rows);
    } else {
        lemma_fold_ok_prefix(aggs, rows.drop_last(), k);
        assert(rows.drop_last().take(k) =~= rows.take(k));
    }
}

/// The first position of a name in a list of names.
pub open spec fn first_index(names: Seq<Seq<char>>, f: Seq<char>) -> int {
    choose|i: int| 0 <= i < names.len() && names[i] == f && forall|j: int| 0 <= j < i ==> names[j] != f
}

/// Whether a name is in a list of names.
pub open spec fn listed(names: Seq<Seq<char>>, f: Seq<char>) -> bool {
    exists|i: int| 0 <= i < names.len() && names[i] == f
}

fn find_name(names: &Vec<String>, f: &str) -> (r: Option<usize>)
    ensures
        match r {
            Some(i) => i < names@.len() && first_index(names_of(names@), f@) == i && names@[i as int]@ == f@,
            None => !listed(names_of(names@), f@),
        },
{
    let ghost ns = names_of(names@);
    let mut i: usize = 0;
    while i < names.len()
        invariant
            ns == names_of(names@),
            i <= names@.len(),
            forall|j: int| 0 <= j < i ==> ns[j] != f@,
        decreases names@.len() - i,
    {
        if str_eq(names[i].as_str(), f) {
            let ghost p = first_index(ns, f@);
            assert(ns[i as int] == f@);
            assert(p == i) by {
                if p < i {
                } else if p > i {
                }
            }
            return Some(i);
        }
        assert(ns[i as int] == names@[i as int]@);
        i = i + 1;
    }
    None
}

impl GroupByScan {
    /// Reads the next group: aggregates its records and keeps its grouping
    /// values. False when no group is left.
    #[verifier::rlimit(60)]
    pub fn next(&mut self) -> (r: bool)
        requires
            old(self).valid(),
            old(self).more() ==> {
                let rows = old(self).input().rows();
                let gf = old(self).grouping();
                let s = old(self).input().position() - 1;
                let e = group_end(rows, gf, s);
                &&& forall|i: int| s <= i <= e && i < rows.len() ==> has_fields(gf, #[trigger] rows[i])
                &&& fold_ok(old(self).aggregates(), rows.subrange(s, e))
            },
        ensures
            final(self).valid(),
            final(self).input().rows() == old(self).input().rows(),
            final(self).grouping() == old(self).grouping(),
            r == old(self).more(),
            !r ==> final(self).aggregates() == old(self).aggregates() && !final(self).more(),
            r ==> {
                let rows = old(self).input().rows();
                let gf = old(self).grouping();
                let s = old(self).input().position() - 1;
                let e = group_end(rows, gf, s);
                &&& final(self).key() == group_key(gf, rows[s])
                &&& final(self).aggregates() == fold_all(old(self).aggregates(), rows.subrange(s, e))
                &&& final(self).more() == (e < rows.len())
                &&& final(self).more() ==> final(self).input().position() == e + 1
            },
    {
        if !self.more_group {
            return false;
        }
        let ghost rows = self.scan.rows();
        let ghost gf = names_of(self.group_fields@);
        let ghost s = self.scan.position() - 1;
        let ghost e = group_end(rows, gf, s);
        let ghost aggs0 = agg_views(self.aggregation_functions@);
        proof {
            assert(rows.subrange(s, s + 1) =~= seq![rows[s]]);
            lemma_group_end_bounds(rows, gf, s, s + 1);
            lemma_fold_ok_prefix(aggs0, rows.subrange(s, e), 1);
            assert(rows.subrange(s, e).take(1) =~= seq![rows[s]]);
            assert(has_fields(gf, rows[s]));
        }
        let mut aggs: Vec<AggregationFn> = Vec::new();
        std::mem::swap(&mut aggs, &mut self.aggregation_functions);
        let aggs = take_first_all(aggs, self.scan.current_row());
        self.aggregation_functions = aggs;
        self.group_values = key_of(&self.group_fields, self.scan.current_row());
        proof {
            assert(fold_all(aggs0, rows.subrange(s, s + 1)) == start_all(aggs0, rows[s]));
        }
        loop
            invariant
                self.scan.valid(),
                self.scan.rows() == rows,
                rows == old(self).input().rows(),
                gf == old(self).grouping(),
                s == old(self).input().position() - 1,
                aggs0 == old(self).aggregates(),
                old(self).more(),
                gf == names_of(self.group_fields@),
                0 <= s,
                s + 1 <= self.scan.position() <= rows.len(),
                e == group_end(rows, gf, s),
                group_end_from(rows, gf, s, self.scan.position()) == e,
                self.scan.position() <= e,
                forall|i: int| s <= i <= e && i < rows.len() ==> has_fields(gf, #[trigger] rows[i]),
                fold_ok(aggs0, rows.subrange(s, e)),
                agg_views(self.aggregation_functions@) == fold_all(
                    aggs0,
                    rows.subrange(s, self.scan.position()),
                ),
                self.group_values@.map_values(|v: Value| v@) == group_key(gf, rows[s]),
                self.group_values@.len() == gf.len(),
            ensures
                self.scan.position() == rows.len(),
            decreases rows.len() - self.scan.position(),
        {
            let ghost p = self.scan.position();
            if !self.scan.next() {
                break;
            }
            proof {
                assert(has_fields(gf, rows[p]));
                lemma_group_end_bounds(rows, gf, s, p + 1);
            }
            let new_group_values = key_of(&self.group_fields, self.scan.current_row());
            if !same_key(&new_group_values, &self.group_values) {
                self.more_group = true;
                proof {
                    assert(e == p);
                }
                return true;
            }
            proof {
                assert(group_key(gf, rows[p]) == group_key(gf, rows[s]));
                assert(e >= p + 1);
                lemma_fold_ok_prefix(aggs0, rows.subrange(s, e), p + 1 - s);
                assert(rows.subrange(s, e).take(p + 1 - s) =~= rows.subrange(s, p + 1));
                assert(rows.subrange(s, p + 1).drop_last() =~= rows.subrange(s, p));
                assert(rows.subrange(s, p + 1).last() == rows[p]);
            }
            let mut aggs: Vec<AggregationFn> = Vec::new();
            std::mem::swap(&mut aggs, &mut self.aggregation_functions);
            let aggs = take_next_all(aggs, self.scan.current_row());
            self.aggregation_functions = aggs;
        }
        proof {
            assert(self.scan.position() == rows.len());
            assert(e == rows.len());
        }
        self.more_group = false;
        true
    }

    /// The value of a field of the group just read: a grouping value, or
    /// the value of the aggregate shown under that name.
    pub fn get_value(&self, field_name: &str) -> (r: Value)
        requires
            self.key().len() == self.grouping().len(),
            listed(self.grouping(), field_name@) || (listed(outputs(self.aggregates()), field_name@)
                && AggregationFn::result_of(
                self.aggregates()[first_index(outputs(self.aggregates()), field_name@)],
            ).is_some()),
        ensures
            listed(self.grouping(), field_name@) ==> r@ == self.key()[first_index(
                self.grouping(),
                field_name@,
            )],
            !listed(self.grouping(), field_name@) ==> Some(r@) == AggregationFn::result_of(
                self.aggregates()[first_index(outputs(self.aggregates()), field_name@)],
            ),
    {
        if let Some(i) = find_name(&self.group_fields, field_name) {
            proof {
                assert(self.grouping()[i as int] == field_name@);
                assert(self.key()[i as int] == self.group_values@[i as int]@);
            }
            return self.group_values[i].duplicate();
        }
        let ghost outs = outputs(self.aggregates());
        let mut k: usize = 0;
        while k < self.aggregation_functions.len()
            invariant
                k <= self.aggregation_functions@.len(),
                outs == outputs(agg_views(self.aggregation_functions@)),
                forall|j: int| 0 <= j < k ==> outs[j] != field_name@,
                !listed(self.grouping(), field_name@),
                listed(outs, field_name@),
                AggregationFn::result_of(self.aggregates()[first_index(outs, field_name@)]).is_some(),
            decreases self.aggregation_functions@.len() - k,
        {
            let f = &self.aggregation_functions[k];
            if str_eq(f.get_field_name(), field_name) {
                let ghost p = first_index(outs, field_name@);
                assert(outs[k as int] == field_name@);
                assert(p == k) by {
                    if p < k {
                    } else if p > k {
                    }
                }
                match f.get_value() {
                    Some(v) => {
                        return v;
                    },
                    None => {
                        proof {
                            assert(false);
                        }
                        return Value::Null;
                    },
                }
            }
            k = k + 1;
        }
        proof {
            assert(false);
        }
        Value::Null
    }

    /// Whether a field is a grouping field or the name of an aggregate.
    pub fn has_field(&self, field_name: &str) -> (r: bool)
        ensures
            r == (listed(self.grouping(), field_name@) || listed(
                outputs(self.aggregates()),
                field_name@,
            )),
    {
        if let Some(i) = find_name(&self.group_fields, field_name) {
            assert(self.grouping()[i as int] == field_name@);
            return true;
        }
        let ghost outs = outputs(self.aggregates());
        let mut k: usize = 0;
        while k < self.aggregation_functions.len()
            invariant
                k <= self.aggregation_functions@.len(),
                outs == outputs(agg_views(self.aggregation_functions@)),
                forall|j: int| 0 <= j < k ==> outs[j] != field_name@,
            decreases self.aggregation_functions@.len() - k,
        {
            if str_eq(self.aggregation_functions[k].get_field_name(), field_name) {
                assert(outs[k as int] == field_name@);
                return true;
            }
            k = k + 1;
        }
        false
    }
}

} // verus!
