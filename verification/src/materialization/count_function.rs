use vstd::prelude::*;

use crate::materialization::aggregation_function::{non_null_count, AggregationFnControl};
use crate::record::field::{Value, ValueView};
use crate::scan::{row_has, row_value, Row};

verus! {

/// The number of non-`NULL` values of a field over a group.
#[derive(Debug, Clone, PartialEq, Eq)]
pub struct CountFn {
    count: i32,
    field_name: String,
    alias: Option<String>,
}

/// The model of the counting aggregate: its field, the count so far, its alias.
pub type CountFnView = (Seq<char>, i32, Option<Seq<char>>);

/// The counting aggregate's state after taking `vs[0]` as a group's first
/// value, as `process_first` does, and each later value in turn, as
/// `process_next` does.
pub open spec fn count_over(s: CountFnView, vs: Seq<ValueView>) -> CountFnView
    decreases vs.len(),
{
    if vs.len() <= 1 {
        CountFn::start_of(s, vs[0])
    } else {
        CountFn::step_of(count_over(s, vs.drop_last()), vs.last())
    }
}

/// Over a group's values, the counting aggregate yields the number of
/// non-`NULL` values.
pub proof fn lemma_count_over(s: CountFnView, vs: Seq<ValueView>)
    requires
        0 < vs.len() < i32::MAX,
    ensures
        count_over(s, vs).1 == non_null_count(vs),
        CountFn::result_of(count_over(s, vs)) == Some(ValueView::I32(non_null_count(vs) as i32)),
    decreases vs.len(),
{
    assert(non_null_count(vs) == non_null_count(vs.drop_last()) + if vs.last() is Null {
        0int
    } else {
        1int
    });
    if vs.len() == 1 {
        assert(vs.drop_last().len() == 0);
        assert(non_null_count(vs.drop_last()) == 0);
        assert(vs.last() == vs[0]);
    } else {
        lemma_count_over(s, vs.drop_last());
        lemma_non_null_count_bound(vs.drop_last());
    }
}

proof fn lemma_non_null_count_bound(vs: Seq<ValueView>)
    ensures
        0 <= non_null_count(vs) <= vs.len(),
    decreases vs.len(),
{
    if vs.len() > 0 {
        lemma_non_null_count_bound(vs.drop_last());
    }
}

impl View for CountFn {
    type V = CountFnView;

    closed spec fn view(&self) -> CountFnView {
        (
            self.field_name@,
            self.count,
            match self.alias {
                Some(a) => Some(a@),
                None => None,
            },
        )
    }
}

impl CountFn {
    /// The counting aggregate over the named field.
    pub fn new(field_name: &str) -> (r: Self)
        ensures
            r@ == (field_name@, 0i32, None::<Seq<char>>),
    {
        CountFn { count: 0, field_name: field_name.to_owned(), alias: None }
    }

    /// The same aggregate, shown under `alias`.
    pub fn with_alias(self, alias: &str) -> (r: Self)
        ensures
            r@ == (self@.0, self@.1, Some(alias@)),
    {
        CountFn { count: self.count, field_name: self.field_name, alias: Some(alias.to_owned()) }
    }

    /// The field whose values are counted.
    pub fn input_field_name(&self) -> (r: &str)
        ensures
            r@ == self@.0,
    {
        self.field_name.as_str()
    }
}

/// What can be done to a counting aggregate: give it an alias, or have it
/// take a group's first or next value.
pub enum CountStep {
    Alias(Seq<char>),
    First(ValueView),
    Next(ValueView),
}

/// The counting aggregate's state after the steps, in order: an alias as
/// `with_alias` gives it, values as `process_first` and `process_next` take them.
pub open spec fn count_after(s: CountFnView, steps: Seq<CountStep>) -> CountFnView
    decreases steps.len(),
{
    if steps.len() == 0 {
        s
    } else {
        let t = match steps[0] {
            CountStep::Alias(a) => (s.0, s.1, Some(a)),
            CountStep::First(v) => CountFn::start_of(s, v),
            CountStep::Next(v) => CountFn::step_of(s, v),
        };
        count_after(t, steps.drop_first())
    }
}

/// Neither aliasing nor counting changes the field a counting aggregate
/// reads: after any steps it reads the field it was made for.
pub proof fn lemma_count_input_kept(field: Seq<char>, steps: Seq<CountStep>)
    ensures
        CountFn::input_of(count_after((field, 0i32, None), steps)) == field,
{
    lemma_count_input_kept_from((field, 0i32, None), steps);
}

proof fn lemma_count_input_kept_from(s: CountFnView, steps: Seq<CountStep>)
    ensures
        count_after(s, steps).0 == s.0,
    decreases steps.len(),
{
    if steps.len() > 0 {
        let t = match steps[0] {
            CountStep::Alias(a) => (s.0, s.1, Some(a)),
            CountStep::First(v) => CountFn::start_of(s, v),
            CountStep::Next(v) => CountFn::step_of(s, v),
        };
        lemma_count_input_kept_from(t, steps.drop_first());
    }
}

impl CountFn {
    /// A copy of the aggregate.
    pub fn duplicate(&self) -> (r: Self)
        ensures
            r@ == self@,
    {
        CountFn {
            count: self.count,
            field_name: self.field_name.clone(),
            alias: match &self.alias {
                Some(a) => Some(a.clone()),
                None => None,
            },
        }
    }
}

impl AggregationFnControl for CountFn {
    open spec fn input_of(s: CountFnView) -> Seq<char> {
        s.0
    }

    open spec fn output_of(s: CountFnView) -> Seq<char> {
        match s.2 {
            Some(a) => a,
            None => s.0,
        }
    }

    open spec fn first_ok(s: CountFnView, v: ValueView) -> bool {
        true
    }

    open spec fn next_ok(s: CountFnView, v: ValueView) -> bool {
        v is Null || s.1 < i32::MAX
    }

    open spec fn start_of(s: CountFnView, v: ValueView) -> CountFnView {
        (s.0, if v is Null { 0i32 } else { 1i32 }, s.2)
    }

    open spec fn step_of(s: CountFnView, v: ValueView) -> CountFnView {
        (s.0, if v is Null { s.1 } else { (s.1 + 1) as i32 }, s.2)
    }

    open spec fn result_of(s: CountFnView) -> Option<ValueView> {
        Some(ValueView::I32(s.1))
    }

    fn process_first(&mut self, row: &Row) {
        self.count = 0;
        let value = row.get_value(self.field_name.as_str());
        if !value.is_null() {
            self.count = 1;
        }
    }

    fn process_next(&mut self, row: &Row) {
        let value = row.get_value(self.field_name.as_str());
        if !value.is_null() {
            self.count = self.count + 1;
        }
    }

    fn get_field_name(&self) -> (r: &str) {
        match &self.alias {
            Some(a) => a.as_str(),
            None => self.field_name.as_str(),
        }
    }

    fn get_value(&self) -> (r: Option<Value>) {
        Some(Value::I32(self.count))
    }
}

} // verus!
