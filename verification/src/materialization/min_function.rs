use vstd::prelude::*;

use crate::materialization::aggregation_function::AggregationFnControl;
use crate::record::field::{lemma_value_order, value_order, Value, ValueView};
use crate::scan::{row_has, row_value, Row};

verus! {

/// The smallest value of a field over a group, `NULL`s left out.
#[derive(Debug, Clone, PartialEq, Eq)]
pub struct MinFn {
    min_value: Option<Value>,
    field_name: String,
}

/// The model of the smallest-value aggregate: its field and the smallest value so far.
pub type MinFnView = (Seq<char>, Option<ValueView>);

/// The smallest of a running minimum and a new value; `NULL` is left out.
pub open spec fn min_step(cur: Option<ValueView>, v: ValueView) -> Option<ValueView> {
    if v is Null {
        cur
    } else {
        match cur {
            Some(m) => if value_order(v, m) < 0 {
                Some(v)
            } else {
                Some(m)
            },
            None => Some(v),
        }
    }
}

/// The running minimum after taking each value in turn.
pub open spec fn min_fold(cur: Option<ValueView>, vs: Seq<ValueView>) -> Option<ValueView>
    decreases vs.len(),
{
    if vs.len() == 0 {
        cur
    } else {
        min_fold(min_step(cur, vs[0]), vs.drop_first())
    }
}

/// The smallest-value aggregate's state after taking `vs[0]` as a group's
/// first value, as `process_first` does, and each later value in turn, as
/// `process_next` does.
pub open spec fn min_over(s: MinFnView, vs: Seq<ValueView>) -> MinFnView
    recommends
        vs.len() > 0,
{
    min_steps(MinFn::start_of(s, vs[0]), vs.drop_first())
}

/// The state after each value is taken as a next value, in turn.
pub open spec fn min_steps(s: MinFnView, vs: Seq<ValueView>) -> MinFnView
    decreases vs.len(),
{
    if vs.len() == 0 {
        s
    } else {
        min_steps(MinFn::step_of(s, vs[0]), vs.drop_first())
    }
}

proof fn lemma_min_steps_fold(s: MinFnView, vs: Seq<ValueView>)
    ensures
        min_steps(s, vs) == (s.0, min_fold(s.1, vs)),
    decreases vs.len(),
{
    if vs.len() > 0 {
        lemma_min_steps_fold(MinFn::step_of(s, vs[0]), vs.drop_first());
    }
}

proof fn lemma_min_step(cur: Option<ValueView>, v: ValueView)
    requires
        cur matches Some(c) ==> !(c is Null),
    ensures
        min_step(cur, v) matches Some(n) ==> !(n is Null) && (min_step(cur, v) == cur || n == v),
        min_step(cur, v) is None <==> (cur is None && v is Null),
        cur matches Some(c) ==> (min_step(cur, v) matches Some(n) && value_order(n, c) <= 0),
        !(v is Null) ==> (min_step(cur, v) matches Some(n) && value_order(n, v) <= 0),
{
    lemma_value_order(v, v, v);
    if let Some(c) = cur {
        lemma_value_order(c, c, c);
        lemma_value_order(v, c, c);
    }
}

proof fn lemma_min_fold(cur: Option<ValueView>, vs: Seq<ValueView>)
    requires
        cur matches Some(c) ==> !(c is Null),
    ensures
        min_fold(cur, vs) is None <==> (cur is None && forall|i: int| 0 <= i < vs.len() ==> vs[i] is Null),
        min_fold(cur, vs) matches Some(m) ==> {
            &&& !(m is Null)
            &&& (cur == Some(m) || exists|i: int| 0 <= i < vs.len() && vs[i] == m)
            &&& (cur matches Some(c) ==> value_order(m, c) <= 0)
            &&& forall|i: int| 0 <= i < vs.len() && !(vs[i] is Null) ==> value_order(m, vs[i]) <= 0
        },
    decreases vs.len(),
{
    if vs.len() == 0 {
        if let Some(c) = cur {
            lemma_value_order(c, c, c);
        }
    } else {
        let v = vs[0];
        let next = min_step(cur, v);
        let rest = vs.drop_first();
        lemma_min_step(cur, v);
        lemma_min_fold(next, rest);
        let r = min_fold(next, rest);
        assert(r == min_fold(cur, vs));
        assert forall|i: int| 0 <= i < rest.len() implies rest[i] == vs[i + 1] by {}
        match r {
            Some(m) => {
                // Where the minimum comes from.
                if next == Some(m) {
                    if next != cur {
                        assert(vs[0] == m);
                    }
                } else {
                    let i = choose|i: int| 0 <= i < rest.len() && rest[i] == m;
                    assert(vs[i + 1] == m);
                }
                // The final minimum is at most the running minimum before.
                if let Some(c) = cur {
                    let n = next->0;
                    lemma_value_order(m, n, c);
                }
                assert forall|i: int| 0 <= i < vs.len() && !(vs[i] is Null) implies value_order(
                    m,
                    vs[i],
                ) <= 0 by {
                    if i > 0 {
                        assert(vs[i] == rest[i - 1]);
                    } else {
                        let n = next->0;
                        lemma_value_order(m, n, v);
                    }
                }
            },
            None => {
                assert forall|i: int| 0 <= i < vs.len() implies vs[i] is Null by {
                    if i > 0 {
                        assert(vs[i] == rest[i - 1]);
                    }
                }
            },
        }
    }
}

/// Over a group's values, the smallest-value aggregate yields nothing when
/// every value is `NULL`, and otherwise the least non-`NULL` value, which
/// is one of the group's values.
pub proof fn lemma_min_over(s: MinFnView, vs: Seq<ValueView>)
    requires
        vs.len() > 0,
    ensures
        MinFn::result_of(min_over(s, vs)) is None <==> forall|i: int| 0 <= i < vs.len() ==> vs[i] is Null,
        MinFn::result_of(min_over(s, vs)) matches Some(m) ==> {
            &&& !(m is Null)
            &&& exists|i: int| 0 <= i < vs.len() && vs[i] == m
            &&& forall|i: int| 0 <= i < vs.len() && !(vs[i] is Null) ==> value_order(m, vs[i]) <= 0
        },
{
    assert(min_fold(None, vs) == min_fold(min_step(None, vs[0]), vs.drop_first()));
    lemma_min_steps_fold(MinFn::start_of(s, vs[0]), vs.drop_first());
    lemma_min_fold(None, vs);
}

impl View for MinFn {
    type V = MinFnView;

    closed spec fn view(&self) -> MinFnView {
        (
            self.field_name@,
            match self.min_value {
                Some(v) => Some(v@),
                None => None,
            },
        )
    }
}

impl MinFn {
    /// The smallest-value aggregate over the named field.
    pub fn new(field_name: &str) -> (r: Self)
        ensures
            r@ == (field_name@, None::<ValueView>),
    {
        MinFn { min_value: None, field_name: field_name.to_owned() }
    }
}

impl MinFn {
    /// A copy of the aggregate.
    pub fn duplicate(&self) -> (r: Self)
        ensures
            r@ == self@,
    {
        MinFn {
            min_value: match &self.min_value {
                Some(v) => Some(v.duplicate()),
                None => None,
            },
            field_name: self.field_name.clone(),
        }
    }
}

impl AggregationFnControl for MinFn {
    open spec fn input_of(s: MinFnView) -> Seq<char> {
        s.0
    }

    open spec fn output_of(s: MinFnView) -> Seq<char> {
        s.0
    }

    open spec fn first_ok(s: MinFnView, v: ValueView) -> bool {
        true
    }

    open spec fn next_ok(s: MinFnView, v: ValueView) -> bool {
        true
    }

    open spec fn start_of(s: MinFnView, v: ValueView) -> MinFnView {
        (s.0, min_step(None, v))
    }

    open spec fn step_of(s: MinFnView, v: ValueView) -> MinFnView {
        (s.0, min_step(s.1, v))
    }

    open spec fn result_of(s: MinFnView) -> Option<ValueView> {
        s.1
    }

    fn process_first(&mut self, row: &Row) {
        let value = row.get_value(self.field_name.as_str());
        if value.is_null() {
            self.min_value = None;
        } else {
            self.min_value = Some(value);
        }
    }

    fn process_next(&mut self, row: &Row) {
        let new_value = row.get_value(self.field_name.as_str());
        if new_value.is_null() {
            return;
        }
        match &self.min_value {
            Some(min) => {
                if new_value.compare_to(min) < 0 {
                    self.min_value = Some(new_value);
                }
            },
            None => {
                self.min_value = Some(new_value);
            },
        }
    }

    fn get_field_name(&self) -> (r: &str) {
        self.field_name.as_str()
    }

    fn get_value(&self) -> (r: Option<Value>) {
        match &self.min_value {
            Some(v) => Some(v.duplicate()),
            None => None,
        }
    }
}

} // verus!
