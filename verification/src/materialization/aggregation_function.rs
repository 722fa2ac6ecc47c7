use vstd::prelude::*;

use crate::materialization::avg_function::AvgFn;
use crate::materialization::count_function::CountFn;
use crate::materialization::max_function::MaxFn;
use crate::materialization::min_function::MinFn;
use crate::materialization::sum_function::SumFn;
use crate::record::field::{Value, ValueView};
use crate::scan::{row_has, row_value, Row};

verus! {

/// The sum of the integer values among `vs`, `NULL`s and strings left out.
pub open spec fn int_total(vs: Seq<ValueView>) -> int {
    vs.fold_left(0int, |acc: int, v: ValueView| match v {
        ValueView::I32(i) => acc + i,
        _ => acc,
    })
}

/// The number of non-`NULL` values among `vs`.
pub open spec fn non_null_count(vs: Seq<ValueView>) -> int {
    vs.fold_left(0int, |acc: int, v: ValueView| if v is Null { acc } else { acc + 1 })
}

/// Whether some value among `vs` is an integer.
pub open spec fn has_int(vs: Seq<ValueView>) -> bool {
    exists|i: int| 0 <= i < vs.len() && vs[i] is I32
}

/// An aggregate over the records of a group: it sees the group's first
/// record, then each following one, and then yields its value.
pub trait AggregationFnControl: View + Sized {
    /// The field whose values the aggregate reads, in a state.
    spec fn input_of(s: Self::V) -> Seq<char>;

    /// The name under which the aggregate's value appears, in a state.
    spec fn output_of(s: Self::V) -> Seq<char>;

    /// Whether the aggregate can take this value first (it panics otherwise).
    spec fn first_ok(s: Self::V, v: ValueView) -> bool;

    /// Whether the aggregate can take this value next (it panics otherwise).
    spec fn next_ok(s: Self::V, v: ValueView) -> bool;

    /// The state after taking `v` as a group's first value.
    spec fn start_of(s: Self::V, v: ValueView) -> Self::V;

    /// The state after taking `v` as a group's next value.
    spec fn step_of(s: Self::V, v: ValueView) -> Self::V;

    /// The value that the aggregate yields in a state.
    spec fn result_of(s: Self::V) -> Option<ValueView>;

    /// Takes the group's first record.
    fn process_first(&mut self, row: &Row)
        requires
            row_has(row@, Self::input_of(old(self)@)),
            Self::first_ok(old(self)@, row_value(row@, Self::input_of(old(self)@))),
        ensures
            final(self)@ == Self::start_of(old(self)@, row_value(row@, Self::input_of(old(self)@))),
            Self::input_of(final(self)@) == Self::input_of(old(self)@),
            Self::output_of(final(self)@) == Self::output_of(old(self)@),
    ;

    /// Takes the group's next record.
    fn process_next(&mut self, row: &Row)
        requires
            row_has(row@, Self::input_of(old(self)@)),
            Self::next_ok(old(self)@, row_value(row@, Self::input_of(old(self)@))),
        ensures
            final(self)@ == Self::step_of(old(self)@, row_value(row@, Self::input_of(old(self)@))),
            Self::input_of(final(self)@) == Self::input_of(old(self)@),
            Self::output_of(final(self)@) == Self::output_of(old(self)@),
    ;

    /// The name under which the aggregate's value appears.
    fn get_field_name(&self) -> (r: &str)
        ensures
            r@ == Self::output_of(self@),
    ;

    /// The aggregate's value, if it has one.
    fn get_value(&self) -> (r: Option<Value>)
        ensures
            match r {
                Some(v) => Self::result_of(self@) == Some(v@),
                None => Self::result_of(self@).is_none(),
            },
    ;
}

} // verus!

verus! {

/// One of the aggregates.
#[derive(Clone, Debug, PartialEq, Eq)]
pub enum AggregationFn {
    Max(MaxFn),
    Count(CountFn),
    Min(MinFn),
    Sum(SumFn),
    Avg(AvgFn),
}

/// The model of an aggregate: the model of the one it is.
pub enum AggregationView {
    Max(<MaxFn as View>::V),
    Count(<CountFn as View>::V),
    Min(<MinFn as View>::V),
    Sum(<SumFn as View>::V),
    Avg(<AvgFn as View>::V),
}

impl View for AggregationFn {
    type V = AggregationView;

    open spec fn view(&self) -> AggregationView {
        match self {
            AggregationFn::Max(f) => AggregationView::Max(f@),
            AggregationFn::Count(f) => AggregationView::Count(f@),
            AggregationFn::Min(f) => AggregationView::Min(f@),
            AggregationFn::Sum(f) => AggregationView::Sum(f@),
            AggregationFn::Avg(f) => AggregationView::Avg(f@),
        }
    }
}

impl AggregationFn {
    /// A copy of the aggregate.
    pub fn duplicate(&self) -> (r: Self)
        ensures
            r@ == self@,
    {
        match self {
            AggregationFn::Max(f) => AggregationFn::Max(f.duplicate()),
            AggregationFn::Count(f) => AggregationFn::Count(f.duplicate()),
            AggregationFn::Min(f) => AggregationFn::Min(f.duplicate()),
            AggregationFn::Sum(f) => AggregationFn::Sum(f.duplicate()),
            AggregationFn::Avg(f) => AggregationFn::Avg(f.duplicate()),
        }
    }
}

impl AggregationFnControl for AggregationFn {
    open spec fn input_of(s: AggregationView) -> Seq<char> {
        match s {
            AggregationView::Max(x) => MaxFn::input_of(x),
            AggregationView::Count(x) => CountFn::input_of(x),
            AggregationView::Min(x) => MinFn::input_of(x),
            AggregationView::Sum(x) => SumFn::input_of(x),
            AggregationView::Avg(x) => AvgFn::input_of(x),
        }
    }

    open spec fn output_of(s: AggregationView) -> Seq<char> {
        match s {
            AggregationView::Max(x) => MaxFn::output_of(x),
            AggregationView::Count(x) => CountFn::output_of(x),
            AggregationView::Min(x) => MinFn::output_of(x),
            AggregationView::Sum(x) => SumFn::output_of(x),
            AggregationView::Avg(x) => AvgFn::output_of(x),
        }
    }

    open spec fn first_ok(s: AggregationView, v: ValueView) -> bool {
        match s {
            AggregationView::Max(x) => MaxFn::first_ok(x, v),
            AggregationView::Count(x) => CountFn::first_ok(x, v),
            AggregationView::Min(x) => MinFn::first_ok(x, v),
            AggregationView::Sum(x) => SumFn::first_ok(x, v),
            AggregationView::Avg(x) => AvgFn::first_ok(x, v),
        }
    }

    open spec fn next_ok(s: AggregationView, v: ValueView) -> bool {
        match s {
            AggregationView::Max(x) => MaxFn::next_ok(x, v),
            AggregationView::Count(x) => CountFn::next_ok(x, v),
            AggregationView::Min(x) => MinFn::next_ok(x, v),
            AggregationView::Sum(x) => SumFn::next_ok(x, v),
            AggregationView::Avg(x) => AvgFn::next_ok(x, v),
        }
    }

    open spec fn start_of(s: AggregationView, v: ValueView) -> AggregationView {
        match s {
            AggregationView::Max(x) => AggregationView::Max(MaxFn::start_of(x, v)),
            AggregationView::Count(x) => AggregationView::Count(CountFn::start_of(x, v)),
            AggregationView::Min(x) => AggregationView::Min(MinFn::start_of(x, v)),
            AggregationView::Sum(x) => AggregationView::Sum(SumFn::start_of(x, v)),
            AggregationView::Avg(x) => AggregationView::Avg(AvgFn::start_of(x, v)),
        }
    }

    open spec fn step_of(s: AggregationView, v: ValueView) -> AggregationView {
        match s {
            AggregationView::Max(x) => AggregationView::Max(MaxFn::step_of(x, v)),
            AggregationView::Count(x) => AggregationView::Count(CountFn::step_of(x, v)),
            AggregationView::Min(x) => AggregationView::Min(MinFn::step_of(x, v)),
            AggregationView::Sum(x) => AggregationView::Sum(SumFn::step_of(x, v)),
            AggregationView::Avg(x) => AggregationView::Avg(AvgFn::step_of(x, v)),
        }
    }

    open spec fn result_of(s: AggregationView) -> Option<ValueView> {
        match s {
            AggregationView::Max(x) => MaxFn::result_of(x),
            AggregationView::Count(x) => CountFn::result_of(x),
            AggregationView::Min(x) => MinFn::result_of(x),
            AggregationView::Sum(x) => SumFn::result_of(x),
            AggregationView::Avg(x) => AvgFn::result_of(x),
        }
    }

    fn process_first(&mut self, row: &Row) {
        match self {
            AggregationFn::Max(f) => f.process_first(row),
            AggregationFn::Count(f) => f.process_first(row),
            AggregationFn::Min(f) => f.process_first(row),
            AggregationFn::Sum(f) => f.process_first(row),
            AggregationFn::Avg(f) => f.process_first(row),
        }
    }

    fn process_next(&mut self, row: &Row) {
        match self {
            AggregationFn::Max(f) => f.process_next(row),
            AggregationFn::Count(f) => f.process_next(row),
            AggregationFn::Min(f) => f.process_next(row),
            AggregationFn::Sum(f) => f.process_next(row),
            AggregationFn::Avg(f) => f.process_next(row),
        }
    }

    fn get_field_name(&self) -> (r: &str) {
        match self {
            AggregationFn::Max(f) => f.get_field_name(),
            AggregationFn::Count(f) => f.get_field_name(),
            AggregationFn::Min(f) => f.get_field_name(),
            AggregationFn::Sum(f) => f.get_field_name(),
            AggregationFn::Avg(f) => f.get_field_name(),
        }
    }

    fn get_value(&self) -> (r: Option<Value>) {
        match self {
            AggregationFn::Max(f) => f.get_value(),
            AggregationFn::Count(f) => f.get_value(),
            AggregationFn::Min(f) => f.get_value(),
            AggregationFn::Sum(f) => f.get_value(),
            AggregationFn::Avg(f) => f.get_value(),
        }
    }
}

impl From<MaxFn> for AggregationFn {
    fn from(f: MaxFn) -> (r: Self) {
        AggregationFn::Max(f)
    }
}

impl vstd::std_specs::convert::FromSpecImpl<MaxFn> for AggregationFn {
    open spec fn obeys_from_spec() -> bool {
        true
    }

    open spec fn from_spec(f: MaxFn) -> Self {
        AggregationFn::Max(f)
    }
}

impl From<CountFn> for AggregationFn {
    fn from(f: CountFn) -> (r: Self) {
        AggregationFn::Count(f)
    }
}

impl vstd::std_specs::convert::FromSpecImpl<CountFn> for AggregationFn {
    open spec fn obeys_from_spec() -> bool {
        true
    }

    open spec fn from_spec(f: CountFn) -> Self {
        AggregationFn::Count(f)
    }
}

impl From<MinFn> for AggregationFn {
    fn from(f: MinFn) -> (r: Self) {
        AggregationFn::Min(f)
    }
}

impl vstd::std_specs::convert::FromSpecImpl<MinFn> for AggregationFn {
    open spec fn obeys_from_spec() -> bool {
        true
    }

    open spec fn from_spec(f: MinFn) -> Self {
        AggregationFn::Min(f)
    }
}

impl From<SumFn> for AggregationFn {
    fn from(f: SumFn) -> (r: Self) {
        AggregationFn::Sum(f)
    }
}

impl vstd::std_specs::convert::FromSpecImpl<SumFn> for AggregationFn {
    open spec fn obeys_from_spec() -> bool {
        true
    }

    open spec fn from_spec(f: SumFn) -> Self {
        AggregationFn::Sum(f)
    }
}

impl From<AvgFn> for AggregationFn {
    fn from(f: AvgFn) -> (r: Self) {
        AggregationFn::Avg(f)
    }
}

impl vstd::std_specs::convert::FromSpecImpl<AvgFn> for AggregationFn {
    open spec fn obeys_from_spec() -> bool {
        true
    }

    open spec fn from_spec(f: AvgFn) -> Self {
        AggregationFn::Avg(f)
    }
}

} // verus!
