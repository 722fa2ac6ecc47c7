use vstd::prelude::*;

use crate::materialization::aggregation_function::{has_int, int_total, AggregationFnControl};
use crate::record::field::{Value, ValueView};
use crate::scan::{row_has, row_value, Row};

verus! {

/// The sum of the integer values of a field over a group, `NULL`s left out.
#[derive(Debug, Clone, PartialEq, Eq)]
pub struct SumFn {
    sum: i64,
    field_name: String,
    has_value: bool,
}

/// The model of the summing aggregate: its field, the sum so far, and
/// whether any value was added.
pub type SumFnView = (Seq<char>, i64, bool);

/// The summing aggregate's state after taking `vs[0]` as a group's first
/// value, as `process_first` does, and each later value in turn, as
/// `process_next` does.
pub open spec fn sum_over(s: SumFnView, vs: Seq<ValueView>) -> SumFnView
    decreases vs.len(),
{
    if vs.len() <= 1 {
        SumFn::start_of(s, vs[0])
    } else {
        SumFn::step_of(sum_over(s, vs.drop_last()), vs.last())
    }
}

/// Over a group's values (integers and `NULL`s, with every running sum
/// fitting an `i64`), the summing aggregate holds the sum of the integers,
/// and yields it cut to 32 bits; it yields nothing when no value is an
/// integer.
pub proof fn lemma_sum_over(s: SumFnView, vs: Seq<ValueView>)
    requires
        vs.len() > 0,
        forall|i: int| 0 <= i < vs.len() ==> !(vs[i] is Str),
        forall|k: int| 1 <= k <= vs.len() ==> i64::MIN <= #[trigger] int_total(vs.take(k)) <= i64::MAX,
    ensures
        sum_over(s, vs).1 == int_total(vs),
        sum_over(s, vs).2 == has_int(vs),
        SumFn::result_of(sum_over(s, vs)) == if has_int(vs) {
            Some(ValueView::I32(int_total(vs) as i32))
        } else {
            None
        },
    decreases vs.len(),
{
    assert(vs.take(vs.len() as int) =~= vs);
    assert(int_total(vs.take(vs.len() as int)) == int_total(vs));
    if vs.len() == 1 {
        assert(vs.drop_last().len() == 0);
        assert(int_total(vs) == int_total(vs.drop_last()) + match vs[0] {
            ValueView::I32(i) => i as int,
            _ => 0int,
        });
        if !(vs[0] is I32) {
            assert(!has_int(vs));
        }
    } else {
        let front = vs.drop_last();
        assert forall|k: int| 1 <= k <= front.len() implies i64::MIN <= #[trigger] int_total(front.take(k))
            <= i64::MAX by {
            assert(front.take(k) =~= vs.take(k));
        }
        lemma_sum_over(s, front);
        assert(int_total(vs) == int_total(front) + match vs.last() {
            ValueView::I32(i) => i as int,
            _ => 0int,
        });
        if has_int(vs) && !has_int(front) {
            let i = choose|i: int| 0 <= i < vs.len() && vs[i] is I32;
            if i < front.len() {
                assert(front[i] is I32);
            }
        }
        if has_int(front) {
            let i = choose|i: int| 0 <= i < front.len() && front[i] is I32;
            assert(vs[i] is I32);
        }
    }
}

impl View for SumFn {
    type V = SumFnView;

    closed spec fn view(&self) -> SumFnView {
        (self.field_name@, self.sum, self.has_value)
    }
}

impl SumFn {
    /// The summing aggregate over the named field.
    pub fn new(field_name: &str) -> (r: Self)
        ensures
            r@ == (field_name@, 0i64, false),
    {
        SumFn { sum: 0, field_name: field_name.to_owned(), has_value: false }
    }
}

impl SumFn {
    /// A copy of the aggregate.
    pub fn duplicate(&self) -> (r: Self)
        ensures
            r@ == self@,
    {
        SumFn { sum: self.sum, field_name: self.field_name.clone(), has_value: self.has_value }
    }
}

impl AggregationFnControl for SumFn {
    open spec fn input_of(s: SumFnView) -> Seq<char> {
        s.0
    }

    open spec fn output_of(s: SumFnView) -> Seq<char> {
        s.0
    }

    open spec fn first_ok(s: SumFnView, v: ValueView) -> bool {
        !(v is Str)
    }

    open spec fn next_ok(s: SumFnView, v: ValueView) -> bool {
        match v {
            ValueView::I32(i) => i64::MIN <= s.1 + i <= i64::MAX,
            ValueView::Null => true,
            ValueView::Str(_) => false,
        }
    }

    open spec fn start_of(s: SumFnView, v: ValueView) -> SumFnView {
        match v {
            ValueView::I32(i) => (s.0, i as i64, true),
            _ => (s.0, 0i64, false),
        }
    }

    open spec fn step_of(s: SumFnView, v: ValueView) -> SumFnView {
        match v {
            ValueView::I32(i) => (s.0, (s.1 + i) as i64, true),
            _ => s,
        }
    }

    /// The sum, cut to its low 32 bits.
    open spec fn result_of(s: SumFnView) -> Option<ValueView> {
        if s.2 {
            Some(ValueView::I32(s.1 as i32))
        } else {
            None
        }
    }

    fn process_first(&mut self, row: &Row) {
        self.sum = 0;
        self.has_value = false;
        match row.get_value(self.field_name.as_str()) {
            Value::I32(i) => {
                self.sum = i as i64;
                self.has_value = true;
            },
            _ => {},
        }
    }

    fn process_next(&mut self, row: &Row) {
        match row.get_value(self.field_name.as_str()) {
            Value::I32(i) => {
                self.sum = self.sum + i as i64;
                self.has_value = true;
            },
            _ => {},
        }
    }

    fn get_field_name(&self) -> (r: &str) {
        self.field_name.as_str()
    }

    fn get_value(&self) -> (r: Option<Value>) {
        if self.has_value {
            Some(Value::I32(#[verifier::truncate] (self.sum as i32)))
        } else {
            None
        }
    }
}

} // verus!
