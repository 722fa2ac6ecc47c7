use vstd::prelude::*;

use crate::materialization::aggregation_function::{int_total, non_null_count, AggregationFnControl};
use crate::parser::expression::{lemma_trunc_div, trunc_div};
use crate::record::field::{Value, ValueView};
use crate::scan::{row_has, row_value, Row};

verus! {

/// The average of the integer values of a field over a group, `NULL`s left
/// out, rounded toward zero.
#[derive(Debug, Clone, PartialEq, Eq)]
pub struct AvgFn {
    sum: i64,
    count: i32,
    field_name: String,
}

/// The model of the averaging aggregate: its field, the sum and the count so far.
pub type AvgFnView = (Seq<char>, i64, i32);

/// The averaging aggregate's state after taking `vs[0]` as a group's first
/// value, as `process_first` does, and each later value in turn, as
/// `process_next` does.
pub open spec fn avg_over(s: AvgFnView, vs: Seq<ValueView>) -> AvgFnView
    decreases vs.len(),
{
    if vs.len() <= 1 {
        AvgFn::start_of(s, vs[0])
    } else {
        AvgFn::step_of(avg_over(s, vs.drop_last()), vs.last())
    }
}

/// Whether `q` is `total` divided by `count` rounded toward zero: what is
/// left over is smaller than the divisor and has the sign of the dividend.
pub open spec fn rounds_toward_zero(total: int, count: int, q: int) -> bool {
    let rem = total - q * count;
    &&& (if rem < 0 { -rem } else { rem }) < (if count < 0 { -count } else { count })
    &&& (rem == 0 || (rem < 0) == (total < 0))
}

proof fn lemma_avg_state(s: AvgFnView, vs: Seq<ValueView>)
    requires
        0 < vs.len() < i32::MAX,
        forall|i: int| 0 <= i < vs.len() ==> !(vs[i] is Str),
        forall|k: int| 1 <= k <= vs.len() ==> i64::MIN <= #[trigger] int_total(vs.take(k)) <= i64::MAX,
    ensures
        avg_over(s, vs).1 == int_total(vs),
        avg_over(s, vs).2 == non_null_count(vs),
        0 <= non_null_count(vs) <= vs.len(),
    decreases vs.len(),
{
    assert(vs.take(vs.len() as int) =~= vs);
    assert(int_total(vs.take(vs.len() as int)) == int_total(vs));
    assert(int_total(vs) == int_total(vs.drop_last()) + match vs.last() {
        ValueView::I32(i) => i as int,
        _ => 0int,
    });
    assert(non_null_count(vs) == non_null_count(vs.drop_last()) + if vs.last() is Null {
        0int
    } else {
        1int
    });
    if vs.len() == 1 {
        assert(vs.drop_last().len() == 0);
        assert(non_null_count(vs.drop_last()) == 0);
        assert(int_total(vs.drop_last()) == 0);
        assert(vs.last() == vs[0]);
    } else {
        let front = vs.drop_last();
        assert forall|k: int| 1 <= k <= front.len() implies i64::MIN <= #[trigger] int_total(front.take(k))
            <= i64::MAX by {
            assert(front.take(k) =~= vs.take(k));
        }
        lemma_avg_state(s, front);
    }
}

/// Over a group's values (integers and `NULL`s, with every running sum
/// fitting an `i64`), the averaging aggregate yields nothing when every
/// value is `NULL`, and otherwise the sum of the integers divided by their
/// number, rounded toward zero: what is left over is less than the number
/// and has the sign of the sum.
pub proof fn lemma_avg_over(s: AvgFnView, vs: Seq<ValueView>)
    requires
        0 < vs.len() < i32::MAX,
        forall|i: int| 0 <= i < vs.len() ==> !(vs[i] is Str),
        forall|k: int| 1 <= k <= vs.len() ==> i64::MIN <= #[trigger] int_total(vs.take(k)) <= i64::MAX,
    ensures
        non_null_count(vs) == 0 ==> AvgFn::result_of(avg_over(s, vs)) is None,
        non_null_count(vs) > 0 ==> exists|q: int|
            #[trigger] rounds_toward_zero(int_total(vs), non_null_count(vs), q)
                && AvgFn::result_of(avg_over(s, vs)) == Some(ValueView::I32(q as i32)),
{
    lemma_avg_state(s, vs);
    if non_null_count(vs) > 0 {
        lemma_trunc_div(int_total(vs), non_null_count(vs));
        let q = trunc_div(int_total(vs), non_null_count(vs));
        assert(AvgFn::result_of(avg_over(s, vs)) == Some(ValueView::I32(q as i32)));
        assert(rounds_toward_zero(int_total(vs), non_null_count(vs), q));
    }
}

impl View for AvgFn {
    type V = AvgFnView;

    closed spec fn view(&self) -> AvgFnView {
        (self.field_name@, self.sum, self.count)
    }
}

impl AvgFn {
    /// The averaging aggregate over the named field.
    pub fn new(field_name: &str) -> (r: Self)
        ensures
            r@ == (field_name@, 0i64, 0i32),
    {
        AvgFn { sum: 0, count: 0, field_name: field_name.to_owned() }
    }
}

impl AvgFn {
    /// A copy of the aggregate.
    pub fn duplicate(&self) -> (r: Self)
        ensures
            r@ == self@,
    {
        AvgFn { sum: self.sum, count: self.count, field_name: self.field_name.clone() }
    }
}

impl AggregationFnControl for AvgFn {
    open spec fn input_of(s: AvgFnView) -> Seq<char> {
        s.0
    }

    open spec fn output_of(s: AvgFnView) -> Seq<char> {
        s.0
    }

    open spec fn first_ok(s: AvgFnView, v: ValueView) -> bool {
        !(v is Str)
    }

    open spec fn next_ok(s: AvgFnView, v: ValueView) -> bool {
        match v {
            ValueView::I32(i) => i64::MIN <= s.1 + i <= i64::MAX && s.2 < i32::MAX,
            ValueView::Null => true,
            ValueView::Str(_) => false,
        }
    }

    open spec fn start_of(s: AvgFnView, v: ValueView) -> AvgFnView {
        match v {
            ValueView::I32(i) => (s.0, i as i64, 1i32),
            _ => (s.0, 0i64, 0i32),
        }
    }

    open spec fn step_of(s: AvgFnView, v: ValueView) -> AvgFnView {
        match v {
            ValueView::I32(i) => (s.0, (s.1 + i) as i64, (s.2 + 1) as i32),
            _ => s,
        }
    }

    /// The sum divided by the count, rounded toward zero and cut to 32 bits.
    open spec fn result_of(s: AvgFnView) -> Option<ValueView> {
        if s.2 > 0 {
            Some(ValueView::I32(trunc_div(s.1 as int, s.2 as int) as i32))
        } else {
            None
        }
    }

    fn process_first(&mut self, row: &Row) {
        self.sum = 0;
        self.count = 0;
        match row.get_value(self.field_name.as_str()) {
            Value::I32(i) => {
                self.sum = i as i64;
                self.count = 1;
            },
            _ => {},
        }
    }

    fn process_next(&mut self, row: &Row) {
        match row.get_value(self.field_name.as_str()) {
            Value::I32(i) => {
                self.sum = self.sum + i as i64;
                self.count = self.count + 1;
            },
            _ => {},
        }
    }

    fn get_field_name(&self) -> (r: &str) {
        self.field_name.as_str()
    }

    fn get_value(&self) -> (r: Option<Value>) {
        if self.count > 0 {
            let s = self.sum as i128;
            let c = self.count as i128;
            let q: i128 = if s < 0 { -((-s) / c) } else { s / c };
            Some(Value::I32(#[verifier::truncate] (q as i32)))
        } else {
            None
        }
    }
}

} // verus!
