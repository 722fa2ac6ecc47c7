use vstd::prelude::*;

use crate::materialization::aggregation_function::AggregationFnControl;
use crate::record::field::{lemma_value_order, value_order, Value, ValueView};
use crate::scan::{row_has, row_value, Row};

verus! {

/// The largest value of a field over a group, `NULL`s left out.
#[derive(Debug, Clone, PartialEq, Eq)]
pub struct MaxFn {
    max_value: Option<Value>,
    field_name: String,
}

/// The model of the largest-value aggregate: its field and the largest value so far.
pub type MaxFnView = (Seq<char>, Option<ValueView>);

/// The largest of a running maximum and a new value; `NULL` is left out.
pub open spec fn max_step(cur: Option<ValueView>, v: ValueView) -> Option<ValueView> {
    if v is Null {
        cur
    } else {
        match cur {
            Some(m) => if value_order(v, m) > 0 {
                Some(v)
            } else {
                Some(m)
            },
            None => Some(v),
        }
    }
}

/// The running maximum after taking each value in turn.
pub open spec fn max_fold(cur: Option<ValueView>, vs: Seq<ValueView>) -> Option<ValueView>
    decreases vs.len(),
{
    if vs.len() == 0 {
        cur
    } else {
        max_fold(max_step(cur, vs[0]), vs.drop_first())
    }
}

/// The largest-value aggregate's state after taking `vs[0]` as a group's
/// first value, as `process_first` does, and each later value in turn, as
/// `process_next` does.
pub open spec fn max_over(s: MaxFnView, vs: Seq<ValueView>) -> MaxFnView
    recommends
        vs.len() > 0,
{
    max_steps(MaxFn::start_of(s, vs[0]), vs.drop_first())
}

/// The state after each value is taken as a next value, in turn.
pub open spec fn max_steps(s: MaxFnView, vs: Seq<ValueView>) -> MaxFnView
    decreases vs.len(),
{
    if vs.len() == 0 {
        s
    } else {
        max_steps(MaxFn::step_of(s, vs[0]), vs.drop_first())
    }
}

proof fn lemma_max_steps_fold(s: MaxFnView, vs: Seq<ValueView>)
    ensures
        max_steps(s, vs) == (s.0, max_fold(s.1, vs)),
    decreases vs.len(),
{
    if vs.len() > 0 {
        lemma_max_steps_fold(MaxFn::step_of(s, vs[0]), vs.drop_first());
    }
}

proof fn lemma_max_step(cur: Option<ValueView>, v: ValueView)
    requires
        cur matches Some(c) ==> !(c is Null),
    ensures
        max_step(cur, v) matches Some(n) ==> !(n is Null) && (max_step(cur, v) == cur || n == v),
        max_step(cur, v) is None <==> (cur is None && v is Null),
        cur matches Some(c) ==> (max_step(cur, v) matches Some(n) && value_order(c, n) <= 0),
        !(v is Null) ==> (max_step(cur, v) matches Some(n) && value_order(v, n) <= 0),
{
    lemma_value_order(v, v, v);
    if let Some(c) = cur {
        lemma_value_order(c, c, c);
        lemma_value_order(v, c, c);
    }
}

proof fn lemma_max_fold(cur: Option<ValueView>, vs: Seq<ValueView>)
    requires
        cur matches Some(c) ==> !(c is Null),
    ensures
        max_fold(cur, vs) is None <==> (cur is None && forall|i: int| 0 <= i < vs.len() ==> vs[i] is Null),
        max_fold(cur, vs) matches Some(m) ==> {
            &&& !(m is Null)
            &&& (cur == Some(m) || exists|i: int| 0 <= i < vs.len() && vs[i] == m)
            &&& (cur matches Some(c) ==> value_order(c, m) <= 0)
            &&& forall|i: int| 0 <= i < vs.len() && !(vs[i] is Null) ==> value_order(vs[i], m) <= 0
        },
    decreases vs.len(),
{
    if vs.len() == 0 {
        if let Some(c) = cur {
            lemma_value_order(c, c, c);
        }
    } else {
        let v = vs[0];
        let next = max_step(cur, v);
        let rest = vs.drop_first();
        lemma_max_step(cur, v);
        lemma_max_fold(next, rest);
        let r = max_fold(next, rest);
        assert(r == max_fold(cur, vs));
        assert forall|i: int| 0 <= i < rest.len() implies rest[i] == vs[i + 1] by {}
        match r {
            Some(m) => {
                // Where the maximum comes from.
                if next == Some(m) {
                    if next != cur {
                        assert(vs[0] == m);
                    }
                } else {
                    let i = choose|i: int| 0 <= i < rest.len() && rest[i] == m;
                    assert(vs[i + 1] == m);
                }
                // The running maximum before is at most the final one.
                if let Some(c) = cur {
                    let n = next->0;
                    lemma_value_order(c, n, m);
                }
                assert forall|i: int| 0 <= i < vs.len() && !(vs[i] is Null) implies value_order(
                    vs[i],
                    m,
                ) <= 0 by {
                    if i > 0 {
                        assert(vs[i] == rest[i - 1]);
                    } else {
                        let n = next->0;
                        lemma_value_order(v, n, m);
                    }
                }
            },
            None => {
                assert forall|i: int| 0 <= i < vs.len() implies vs[i] is Null by {
                    if i > 0 {
                        assert(vs[i] == rest[i - 1]);
                    }
                }
            },
        }
    }
}

/// Over a group's values, the largest-value aggregate yields nothing when
/// every value is `NULL`, and otherwise the greatest non-`NULL` value, which
/// is one of the group's values.
pub proof fn lemma_max_over(s: MaxFnView, vs: Seq<ValueView>)
    requires
        vs.len() > 0,
    ensures
        MaxFn::result_of(max_over(s, vs)) is None <==> forall|i: int| 0 <= i < vs.len() ==> vs[i] is Null,
        MaxFn::result_of(max_over(s, vs)) matches Some(m) ==> {
            &&& !(m is Null)
            &&& exists|i: int| 0 <= i < vs.len() && vs[i] == m
            &&& forall|i: int| 0 <= i < vs.len() && !(vs[i] is Null) ==> value_order(vs[i], m) <= 0
        },
{
    assert(max_fold(None, vs) == max_fold(max_step(None, vs[0]), vs.drop_first()));
    lemma_max_steps_fold(MaxFn::start_of(s, vs[0]), vs.drop_first());
    lemma_max_fold(None, vs);
}

impl View for MaxFn {
    type V = MaxFnView;

    closed spec fn view(&self) -> MaxFnView {
        (
            self.field_name@,
            match self.max_value {
                Some(v) => Some(v@),
                None => None,
            },
        )
    }
}

impl MaxFn {
    /// The largest-value aggregate over the named field.
    pub fn new(field_name: &str) -> (r: Self)
        ensures
            r@ == (field_name@, None::<ValueView>),
    {
        MaxFn { max_value: None, field_name: field_name.to_owned() }
    }
}

impl MaxFn {
    /// A copy of the aggregate.
    pub fn duplicate(&self) -> (r: Self)
        ensures
            r@ == self@,
    {
        MaxFn {
            max_value: match &self.max_value {
                Some(v) => Some(v.duplicate()),
                None => None,
            },
            field_name: self.field_name.clone(),
        }
    }
}

impl AggregationFnControl for MaxFn {
    open spec fn input_of(s: MaxFnView) -> Seq<char> {
        s.0
    }

    open spec fn output_of(s: MaxFnView) -> Seq<char> {
        s.0
    }

    open spec fn first_ok(s: MaxFnView, v: ValueView) -> bool {
        true
    }

    open spec fn next_ok(s: MaxFnView, v: ValueView) -> bool {
        true
    }

    open spec fn start_of(s: MaxFnView, v: ValueView) -> MaxFnView {
        (s.0, max_step(None, v))
    }

    open spec fn step_of(s: MaxFnView, v: ValueView) -> MaxFnView {
        (s.0, max_step(s.1, v))
    }

    open spec fn result_of(s: MaxFnView) -> Option<ValueView> {
        s.1
    }

    fn process_first(&mut self, row: &Row) {
        let value = row.get_value(self.field_name.as_str());
        if value.is_null() {
            self.max_value = None;
        } else {
            self.max_value = Some(value);
        }
    }

    fn process_next(&mut self, row: &Row) {
        let new_value = row.get_value(self.field_name.as_str());
        if new_value.is_null() {
            return;
        }
        match &self.max_value {
            Some(max) => {
                if new_value.compare_to(max) > 0 {
                    self.max_value = Some(new_value);
                }
            },
            None => {
                self.max_value = Some(new_value);
            },
        }
    }

    fn get_field_name(&self) -> (r: &str) {
        self.field_name.as_str()
    }

    fn get_value(&self) -> (r: Option<Value>) {
        match &self.max_value {
            Some(v) => Some(v.duplicate()),
            None => None,
        }
    }
}

} // verus!
