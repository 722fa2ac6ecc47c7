use vstd::prelude::*;

use crate::bytes::str_eq;
use crate::parser::expression::{
    applies_to, eval, evaluable, fold, foldable, lemma_fold_sound, opt_view, ExprView, Expression,
};
use crate::plan::PlanControl;
use crate::record::field::{Value, ValueView};
use crate::record::schema::{with_all, Schema, SchemaView};
use crate::scan::{row_value, Row, RowView};

verus! {

/// A condition on a record: two expressions are equal, or an expression is `NULL`.
#[derive(Debug, PartialEq, Eq)]
pub enum Term {
    Equality(Expression, Expression),
    IsNull(Expression),
}

/// The model of a term.
pub enum TermView {
    Equality(ExprView, ExprView),
    IsNull(ExprView),
}

impl View for Term {
    type V = TermView;

    open spec fn view(&self) -> TermView {
        match self {
            Term::Equality(l, r) => TermView::Equality(l@, r@),
            Term::IsNull(e) => TermView::IsNull(e@),
        }
    }
}

/// The models of a sequence of terms.
pub open spec fn term_views(ts: Seq<Term>) -> Seq<TermView> {
    ts.map_values(|t: Term| t@)
}

/// A conjunction of terms.
#[derive(Debug, PartialEq, Eq)]
pub struct Predicate {
    terms: Vec<Term>,
}

impl View for Predicate {
    type V = Seq<TermView>;

    closed spec fn view(&self) -> Seq<TermView> {
        term_views(self.terms@)
    }
}

/// A row that satisfies a term holds, in the field the term equates with a
/// constant, that constant.
pub proof fn lemma_term_constant_holds(t: TermView, name: Seq<char>, row: RowView)
    requires
        term_holds(t, row),
        term_constant(t, name).is_some(),
    ensures
        row_value(row, name) == term_constant(t, name).unwrap(),
{
    match t {
        TermView::Equality(l, r) => {
            lemma_fold_sound(l, row);
            lemma_fold_sound(r, row);
        },
        TermView::IsNull(e) => {},
    }
}

/// A row that satisfies a term holds the same value in the two fields the
/// term equates.
pub proof fn lemma_term_field_holds(t: TermView, name: Seq<char>, row: RowView)
    requires
        term_holds(t, row),
        term_field(t, name).is_some(),
    ensures
        row_value(row, name) == row_value(row, term_field(t, name).unwrap()),
{
}

/// A row that satisfies every term of a predicate holds, in the field the
/// predicate equates with a constant, that constant.
pub proof fn lemma_predicate_constant_holds(ts: Seq<TermView>, name: Seq<char>, row: RowView)
    requires
        forall|i: int| 0 <= i < ts.len() ==> term_holds(#[trigger] ts[i], row),
        first_some(ts.map_values(|t: TermView| term_constant(t, name))).is_some(),
    ensures
        row_value(row, name) == first_some(
            ts.map_values(|t: TermView| term_constant(t, name)),
        ).unwrap(),
    decreases ts.len(),
{
    let answers = ts.map_values(|t: TermView| term_constant(t, name));
    if answers[0].is_some() {
        lemma_term_constant_holds(ts[0], name, row);
    } else {
        assert(answers.drop_first() =~= ts.drop_first().map_values(
            |t: TermView| term_constant(t, name),
        ));
        assert forall|i: int| 0 <= i < ts.drop_first().len() implies term_holds(
            #[trigger] ts.drop_first()[i],
            row,
        ) by {
            assert(ts.drop_first()[i] == ts[i + 1]);
        }
        lemma_predicate_constant_holds(ts.drop_first(), name, row);
    }
}

/// Whether a term can be evaluated on a row.
pub open spec fn term_evaluable(t: TermView, row: RowView) -> bool {
    match t {
        TermView::Equality(l, r) => evaluable(l, row) && evaluable(r, row),
        TermView::IsNull(e) => evaluable(e, row),
    }
}

/// Whether a row satisfies a term.
pub open spec fn term_holds(t: TermView, row: RowView) -> bool {
    match t {
        TermView::Equality(l, r) => eval(l, row) == eval(r, row),
        TermView::IsNull(e) => eval(e, row) is Null,
    }
}

/// Whether the terms can be checked in order on a row: each one that is
/// reached can be evaluated, where checking stops at the first that fails.
pub open spec fn terms_evaluable(ts: Seq<TermView>, row: RowView) -> bool {
    forall|i: int|
        0 <= i < ts.len() && (forall|j: int| 0 <= j < i ==> term_holds(ts[j], row))
            ==> term_evaluable(#[trigger] ts[i], row)
}

/// The field an expression names, if it is a field reference.
pub open spec fn field_of(e: ExprView) -> Option<Seq<char>> {
    match e {
        ExprView::Field(name) => Some(name),
        _ => None,
    }
}

/// Whether the planner's estimate for a term needs no overflowing fold.
pub open spec fn term_estimable(t: TermView) -> bool {
    match t {
        TermView::Equality(_, _) => true,
        TermView::IsNull(e) => field_of(e).is_some() || foldable(e),
    }
}

/// The planner's estimate of how much a term cuts down its input: the
/// distinct values of the field it compares (the larger of two fields), 1 for
/// a comparison of equal constants, 100 otherwise.
pub open spec fn term_reduction<P: PlanControl>(t: TermView, plan: &P) -> int {
    match t {
        TermView::Equality(l, r) => match (field_of(l), field_of(r)) {
            (Some(a), Some(b)) => {
                let x = plan.distinct_values(a);
                let y = plan.distinct_values(b);
                if x >= y {
                    x as int
                } else {
                    y as int
                }
            },
            (Some(a), None) => plan.distinct_values(a) as int,
            (None, Some(b)) => plan.distinct_values(b) as int,
            (None, None) => if l == r {
                1
            } else {
                100
            },
        },
        TermView::IsNull(e) => match field_of(e) {
            Some(a) => plan.distinct_values(a) as int,
            None => match fold(e) {
                Some(ValueView::Null) => 1,
                _ => 100,
            },
        },
    }
}

/// An equality term holds of a row exactly when its two sides have the same
/// value there: it holds of an expression compared with itself, holds either
/// way round, and two equalities that hold with a shared side make a third.
/// A term testing a constant for `NULL` holds exactly of the `NULL` constant.
pub proof fn lemma_term_holds_laws(a: ExprView, b: ExprView, c: ExprView, row: RowView)
    ensures
        term_holds(TermView::Equality(a, a), row),
        term_holds(TermView::Equality(a, b), row) == term_holds(TermView::Equality(b, a), row),
        term_holds(TermView::Equality(a, b), row) && term_holds(TermView::Equality(b, c), row)
            ==> term_holds(TermView::Equality(a, c), row),
        term_holds(TermView::Equality(a, b), row) ==> eval(a, row) == eval(b, row),
        term_holds(TermView::IsNull(ExprView::Null), row),
        forall|i: i32| !#[trigger] term_holds(TermView::IsNull(ExprView::I32(i)), row),
{
}

/// The estimate for an equality does not depend on which side is which; an
/// equality of two fields is estimated by the larger of their distinct
/// values, one of a field with anything else by that field's distinct values.
pub proof fn lemma_term_reduction_laws<P: PlanControl>(l: ExprView, r: ExprView, plan: &P)
    ensures
        term_reduction(TermView::Equality(l, r), plan) == term_reduction(TermView::Equality(r, l), plan),
        (l matches ExprView::Field(a) && r matches ExprView::Field(b)) ==> {
            let x = plan.distinct_values(l->Field_0) as int;
            let y = plan.distinct_values(r->Field_0) as int;
            let f = term_reduction(TermView::Equality(l, r), plan);
            &&& f >= x
            &&& f >= y
            &&& (f == x || f == y)
        },
        (l matches ExprView::Field(a) && !(r is Field)) ==> term_reduction(
            TermView::Equality(l, r),
            plan,
        ) == plan.distinct_values(l->Field_0) as int,
{
}

/// The product of the estimates of the first `n` terms.
pub open spec fn reduction_product<P: PlanControl>(ts: Seq<TermView>, plan: &P, n: int) -> int
    decreases n,
{
    if n <= 0 {
        1
    } else {
        reduction_product(ts, plan, n - 1) * term_reduction(ts[n - 1], plan)
    }
}

proof fn lemma_product_prefix<P: PlanControl>(a: Seq<TermView>, b: Seq<TermView>, plan: &P, m: int)
    requires
        0 <= m <= a.len(),
    ensures
        reduction_product(a + b, plan, m) == reduction_product(a, plan, m),
    decreases m,
{
    if m > 0 {
        lemma_product_prefix(a, b, plan, m - 1);
        assert((a + b)[m - 1] == a[m - 1]);
    }
}

proof fn lemma_product_concat_upto<P: PlanControl>(a: Seq<TermView>, b: Seq<TermView>, plan: &P, k: int)
    requires
        0 <= k <= b.len(),
    ensures
        reduction_product(a + b, plan, a.len() + k) == reduction_product(a, plan, a.len() as int)
            * reduction_product(b, plan, k),
    decreases k,
{
    if k == 0 {
        lemma_product_prefix(a, b, plan, a.len() as int);
    } else {
        lemma_product_concat_upto(a, b, plan, k - 1);
        assert((a + b)[a.len() + k - 1] == b[k - 1]);
        let x = reduction_product(a, plan, a.len() as int);
        let y = reduction_product(b, plan, k - 1);
        let z = term_reduction(b[k - 1], plan);
        assert((x * y) * z == x * (y * z)) by (nonlinear_arith);
    }
}

/// The estimate of a predicate is the product of its terms' estimates: 1
/// for no terms, and the product of the two estimates for two lists of
/// terms put together.
pub proof fn lemma_reduction_product_concat<P: PlanControl>(a: Seq<TermView>, b: Seq<TermView>, plan: &P)
    ensures
        reduction_product(Seq::<TermView>::empty(), plan, 0) == 1,
        reduction_product(a + b, plan, (a.len() + b.len()) as int) == reduction_product(
            a,
            plan,
            a.len() as int,
        ) * reduction_product(b, plan, b.len() as int),
{
    lemma_product_concat_upto(a, b, plan, b.len() as int);
}

/// The estimate of a predicate made of the terms of two predicates is the
/// product of their estimates (what `get_reduction_factor` returns for each).
pub proof fn lemma_predicate_reduction_concat<P: PlanControl>(
    both: Predicate,
    first: Predicate,
    second: Predicate,
    plan: &P,
)
    requires
        both@ == first@ + second@,
    ensures
        reduction_product(both@, plan, both@.len() as int) == reduction_product(
            first@,
            plan,
            first@.len() as int,
        ) * reduction_product(second@, plan, second@.len() as int),
{
    lemma_reduction_product_concat(first@, second@, plan);
}

/// The constant that a term equates the named field with.
pub open spec fn term_constant(t: TermView, name: Seq<char>) -> Option<ValueView> {
    match t {
        TermView::Equality(l, r) => if field_of(l) == Some(name) && fold(r).is_some() {
            fold(r)
        } else if field_of(r) == Some(name) && fold(l).is_some() {
            fold(l)
        } else {
            None
        },
        TermView::IsNull(e) => if field_of(e) == Some(name) {
            Some(ValueView::Null)
        } else {
            None
        },
    }
}

/// Whether asking a term for a constant of the named field needs no
/// overflowing fold.
pub open spec fn term_constant_ok(t: TermView, name: Seq<char>) -> bool {
    match t {
        TermView::Equality(l, r) => (field_of(l) == Some(name) ==> foldable(r)) && (field_of(r)
            == Some(name) ==> foldable(l)),
        TermView::IsNull(_) => true,
    }
}

/// The field that a term equates the named field with.
pub open spec fn term_field(t: TermView, name: Seq<char>) -> Option<Seq<char>> {
    match t {
        TermView::Equality(l, r) => if field_of(l) == Some(name) && field_of(r).is_some() {
            field_of(r)
        } else if field_of(r) == Some(name) && field_of(l).is_some() {
            field_of(l)
        } else {
            None
        },
        TermView::IsNull(_) => None,
    }
}

/// The first answer among the terms, in order.
pub open spec fn first_some<A>(answers: Seq<Option<A>>) -> Option<A>
    decreases answers.len(),
{
    if answers.len() == 0 {
        None
    } else if answers[0].is_some() {
        answers[0]
    } else {
        first_some(answers.drop_first())
    }
}

/// Whether every field of a term is in the schema.
pub open spec fn term_applies(t: TermView, schema: SchemaView) -> bool {
    match t {
        TermView::Equality(l, r) => applies_to(l, schema) && applies_to(r, schema),
        TermView::IsNull(e) => applies_to(e, schema),
    }
}

/// The terms whose fields are all in the schema, in order.
pub open spec fn select_terms(ts: Seq<TermView>, schema: SchemaView) -> Seq<TermView>
    decreases ts.len(),
{
    if ts.len() == 0 {
        Seq::empty()
    } else if term_applies(ts.last(), schema) {
        select_terms(ts.drop_last(), schema).push(ts.last())
    } else {
        select_terms(ts.drop_last(), schema)
    }
}

/// Whether a term joins two schemas: it needs fields of both.
pub open spec fn term_joins(t: TermView, s1: SchemaView, s2: SchemaView) -> bool {
    !term_applies(t, s1) && !term_applies(t, s2) && term_applies(
        t,
        with_all(with_all(Seq::empty(), s1), s2),
    )
}

/// The terms that join two schemas, in order.
pub open spec fn join_terms(ts: Seq<TermView>, s1: SchemaView, s2: SchemaView) -> Seq<TermView>
    decreases ts.len(),
{
    if ts.len() == 0 {
        Seq::empty()
    } else if term_joins(ts.last(), s1, s2) {
        join_terms(ts.drop_last(), s1, s2).push(ts.last())
    } else {
        join_terms(ts.drop_last(), s1, s2)
    }
}

impl Term {
    /// A copy of the term.
    pub fn duplicate(&self) -> (r: Term)
        ensures
            r@ == self@,
    {
        match self {
            Term::Equality(l, r) => Term::Equality(l.duplicate(), r.duplicate()),
            Term::IsNull(e) => Term::IsNull(e.duplicate()),
        }
    }

    /// Whether the row satisfies the term.
    pub fn is_satisfied(&self, row: &Row) -> (r: bool)
        requires
            term_evaluable(self@, row@),
        ensures
            r == term_holds(self@, row@),
    {
        match self {
            Term::Equality(lhs, rhs) => {
                let l = lhs.evaluate(row);
                let r = rhs.evaluate(row);
                l.equals(&r)
            },
            Term::IsNull(expr) => {
                let value = expr.evaluate(row);
                value.is_null()
            },
        }
    }

    /// The planner's estimate of how much the term cuts down its input.
    pub fn get_reduction_factor<P: PlanControl>(&self, plan: &P) -> (r: usize)
        requires
            term_estimable(self@),
        ensures
            r == term_reduction(self@, plan),
    {
        match self {
            Term::Equality(lhs, rhs) => {
                let lhs_field = lhs.try_get_field();
                let rhs_field = rhs.try_get_field();
                match (lhs_field, rhs_field) {
                    (Some(lhs_field), Some(rhs_field)) => {
                        let l_distinct = plan.num_distinct_values(lhs_field);
                        let r_distinct = plan.num_distinct_values(rhs_field);
                        return if l_distinct >= r_distinct {
                            l_distinct
                        } else {
                            r_distinct
                        };
                    },
                    (Some(lhs_field), None) => {
                        return plan.num_distinct_values(lhs_field);
                    },
                    (None, Some(rhs_field)) => {
                        return plan.num_distinct_values(rhs_field);
                    },
                    _ => {},
                }
                if lhs.equals(rhs) {
                    1
                } else {
                    100
                }
            },
            Term::IsNull(expr) => {
                if let Some(field) = expr.try_get_field() {
                    return plan.num_distinct_values(field);
                }
                if let Some(value) = expr.try_get_constant() {
                    return if value.is_null() {
                        1
                    } else {
                        100
                    };
                }
                100
            },
        }
    }

    /// The constant that the term equates the named field with, if any.
    pub fn equates_with_constant(&self, field_name: &str) -> (r: Option<Value>)
        requires
            term_constant_ok(self@, field_name@),
        ensures
            opt_view(r) == term_constant(self@, field_name@),
    {
        match self {
            Term::Equality(lhs, rhs) => {
                if let Some(lhs_field) = lhs.try_get_field() {
                    if str_eq(lhs_field, field_name) {
                        if let Some(rhs_constant) = rhs.try_get_constant() {
                            return Some(rhs_constant);
                        }
                    }
                }
                if let Some(rhs_field) = rhs.try_get_field() {
                    if str_eq(rhs_field, field_name) {
                        if let Some(lhs_constant) = lhs.try_get_constant() {
                            return Some(lhs_constant);
                        }
                    }
                }
            },
            Term::IsNull(expr) => {
                if let Some(field) = expr.try_get_field() {
                    if str_eq(field, field_name) {
                        return Some(Value::Null);
                    }
                }
            },
        }
        None
    }

    /// The other field that the term equates the named field with, if any.
    pub fn equates_with_field(&self, field_name: &str) -> (r: Option<String>)
        ensures
            match r {
                Some(s) => term_field(self@, field_name@) == Some(s@),
                None => term_field(self@, field_name@).is_none(),
            },
    {
        match self {
            Term::Equality(lhs, rhs) => {
                if let Some(lhs_field) = lhs.try_get_field() {
                    if str_eq(lhs_field, field_name) {
                        if let Some(rhs_field) = rhs.try_get_field() {
                            return Some(rhs_field.to_owned());
                        }
                    }
                }
                if let Some(rhs_field) = rhs.try_get_field() {
                    if str_eq(rhs_field, field_name) {
                        if let Some(lhs_field) = lhs.try_get_field() {
                            return Some(lhs_field.to_owned());
                        }
                    }
                }
            },
            Term::IsNull(_) => {},
        }
        None
    }

    /// Whether every field of the term is in the schema.
    pub fn is_applied_to(&self, schema: &Schema) -> (r: bool)
        ensures
            r == term_applies(self@, schema@),
    {
        match self {
            Term::Equality(lhs, rhs) => lhs.is_applied_to(schema) && rhs.is_applied_to(schema),
            Term::IsNull(expr) => expr.is_applied_to(schema),
        }
    }
}

impl Predicate {
    /// The conjunction of the given terms.
    pub fn new(terms: Vec<Term>) -> (p: Self)
        ensures
            p@ == term_views(terms@),
    {
        Predicate { terms }
    }

    /// The terms of the predicate.
    pub fn terms(&self) -> (r: &Vec<Term>)
        ensures
            term_views(r@) == self@,
    {
        &self.terms
    }

    /// A copy of the predicate.
    pub fn duplicate(&self) -> (r: Predicate)
        ensures
            r@ == self@,
    {
        let mut terms: Vec<Term> = Vec::new();
        let mut i: usize = 0;
        while i < self.terms.len()
            invariant
                i <= self.terms@.len(),
                term_views(terms@) == self@.take(i as int),
            decreases self.terms@.len() - i,
        {
            let ghost before = terms@;
            assert(term_views(before).len() == before.len());
            assert(self@.len() == self.terms@.len());
            assert(self@.take(i as int).len() == i);
            assert(before.len() == i);
            let d = self.terms[i].duplicate();
            assert(self@[i as int] == self.terms@[i as int]@);
            terms.push(d);
            assert forall|j: int| 0 <= j < i + 1 implies #[trigger] term_views(terms@)[j]
                == self@.take(i + 1)[j] by {
                assert(terms@.len() == i + 1);
                assert(term_views(terms@)[j] == terms@[j]@);
                if j < i {
                    assert(terms@[j] == before[j]);
                    assert(term_views(before)[j] == before[j]@);
                    assert(term_views(before)[j] == self@.take(i as int)[j]);
                } else {
                    assert(terms@[j] == d);
                }
            }
            assert(term_views(terms@) =~= self@.take(i + 1));
            i = i + 1;
        }
        assert(self@.take(i as int) =~= self@);
        Predicate { terms }
    }

    /// Whether the row satisfies every term; checking stops at the first that fails.
    pub fn is_satisfied(&self, row: &Row) -> (r: bool)
        requires
            terms_evaluable(self@, row@),
        ensures
            r == (forall|i: int| 0 <= i < self@.len() ==> term_holds(#[trigger] self@[i], row@)),
    {
        let mut i: usize = 0;
        while i < self.terms.len()
            invariant
                i <= self.terms@.len(),
                terms_evaluable(self@, row@),
                forall|j: int| 0 <= j < i ==> term_holds(#[trigger] self@[j], row@),
            decreases self.terms@.len() - i,
        {
            assert(self@[i as int] == self.terms@[i as int]@);
            if !self.terms[i].is_satisfied(row) {
                return false;
            }
            i = i + 1;
        }
        true
    }

    /// The product of the estimates of all terms.
    pub fn get_reduction_factor<P: PlanControl>(&self, plan: &P) -> (r: usize)
        requires
            forall|i: int| 0 <= i < self@.len() ==> term_estimable(#[trigger] self@[i]),
            forall|n: int| 0 <= n <= self@.len() ==> #[trigger] reduction_product(self@, plan, n) <= usize::MAX,
        ensures
            r == reduction_product(self@, plan, self@.len() as int),
    {
        let mut factor: usize = 1;
        let mut i: usize = 0;
        while i < self.terms.len()
            invariant
                i <= self.terms@.len(),
                forall|i: int| 0 <= i < self@.len() ==> term_estimable(#[trigger] self@[i]),
                forall|n: int| 0 <= n <= self@.len() ==> #[trigger] reduction_product(self@, plan, n) <= usize::MAX,
                factor == reduction_product(self@, plan, i as int),
            decreases self.terms@.len() - i,
        {
            assert(self@[i as int] == self.terms@[i as int]@);
            let f = self.terms[i].get_reduction_factor(plan);
            assert(reduction_product(self@, plan, i + 1) == factor * f);
            assert(reduction_product(self@, plan, i + 1) <= usize::MAX);
            factor = factor * f;
            i = i + 1;
        }
        factor
    }

    /// The predicate made of the terms whose fields are all in the schema, if any.
    pub fn select_sub_predicates(&self, schema: &Schema) -> (r: Option<Predicate>)
        ensures
            match r {
                Some(p) => p@ == select_terms(self@, schema@) && p@.len() > 0,
                None => select_terms(self@, schema@).len() == 0,
            },
    {
        let mut terms: Vec<Term> = Vec::new();
        let mut i: usize = 0;
        while i < self.terms.len()
            invariant
                i <= self.terms@.len(),
                term_views(terms@) == select_terms(self@.take(i as int), schema@),
            decreases self.terms@.len() - i,
        {
            assert(self@.take(i + 1).drop_last() =~= self@.take(i as int));
            assert(self@.take(i + 1).last() == self.terms@[i as int]@);
            if self.terms[i].is_applied_to(schema) {
                terms.push(self.terms[i].duplicate());
            }
            assert(term_views(terms@) =~= select_terms(self@.take(i + 1), schema@));
            i = i + 1;
        }
        assert(self@.take(i as int) =~= self@);
        if terms.len() == 0 {
            None
        } else {
            Some(Predicate::new(terms))
        }
    }

    /// The predicate made of the terms that need fields of both schemas, if any.
    pub fn join_sub_predicates(&self, schema1: &Schema, schema2: &Schema) -> (r: Option<Predicate>)
        ensures
            match r {
                Some(p) => p@ == join_terms(self@, schema1@, schema2@) && p@.len() > 0,
                None => join_terms(self@, schema1@, schema2@).len() == 0,
            },
    {
        let mut join_schema = Schema::new();
        join_schema.add_all(schema1);
        join_schema.add_all(schema2);
        let mut terms: Vec<Term> = Vec::new();
        let mut i: usize = 0;
        while i < self.terms.len()
            invariant
                i <= self.terms@.len(),
                join_schema@ == with_all(with_all(Seq::empty(), schema1@), schema2@),
                term_views(terms@) == join_terms(self@.take(i as int), schema1@, schema2@),
            decreases self.terms@.len() - i,
        {
            assert(self@.take(i + 1).drop_last() =~= self@.take(i as int));
            assert(self@.take(i + 1).last() == self.terms@[i as int]@);
            let term = &self.terms[i];
            if !term.is_applied_to(schema1) && !term.is_applied_to(schema2) && term.is_applied_to(
                &join_schema,
            ) {
                terms.push(term.duplicate());
            }
            assert(term_views(terms@) =~= join_terms(self@.take(i + 1), schema1@, schema2@));
            i = i + 1;
        }
        assert(self@.take(i as int) =~= self@);
        if terms.len() == 0 {
            None
        } else {
            Some(Predicate::new(terms))
        }
    }

    /// The constant that some term equates the named field with: the first found.
    pub fn equates_with_constant(&self, field_name: &str) -> (r: Option<Value>)
        requires
            forall|i: int| 0 <= i < self@.len() ==> term_constant_ok(#[trigger] self@[i], field_name@),
        ensures
            opt_view(r) == first_some(self@.map_values(|t: TermView| term_constant(t, field_name@))),
    {
        let ghost answers = self@.map_values(|t: TermView| term_constant(t, field_name@));
        let mut i: usize = 0;
        assert(answers.skip(0) =~= answers);
        while i < self.terms.len()
            invariant
                i <= self.terms@.len(),
                answers == self@.map_values(|t: TermView| term_constant(t, field_name@)),
                forall|i: int| 0 <= i < self@.len() ==> term_constant_ok(#[trigger] self@[i], field_name@),
                first_some(answers) == first_some(answers.skip(i as int)),
            decreases self.terms@.len() - i,
        {
            assert(self@[i as int] == self.terms@[i as int]@);
            let t = self.terms[i].equates_with_constant(field_name);
            assert(answers.skip(i as int)[0] == answers[i as int]);
            if t.is_some() {
                return t;
            }
            assert(answers.skip(i as int).drop_first() =~= answers.skip(i + 1));
            i = i + 1;
        }
        None
    }

    /// The other field that some term equates the named field with: the first found.
    pub fn equates_with_field(&self, field_name: &str) -> (r: Option<String>)
        ensures
            match r {
                Some(s) => first_some(self@.map_values(|t: TermView| term_field(t, field_name@)))
                    == Some(s@),
                None => first_some(
                    self@.map_values(|t: TermView| term_field(t, field_name@)),
                ).is_none(),
            },
    {
        let ghost answers = self@.map_values(|t: TermView| term_field(t, field_name@));
        let mut i: usize = 0;
        assert(answers.skip(0) =~= answers);
        while i < self.terms.len()
            invariant
                i <= self.terms@.len(),
                answers == self@.map_values(|t: TermView| term_field(t, field_name@)),
                first_some(answers) == first_some(answers.skip(i as int)),
            decreases self.terms@.len() - i,
        {
            assert(self@[i as int] == self.terms@[i as int]@);
            let t = self.terms[i].equates_with_field(field_name);
            assert(answers.skip(i as int)[0] == answers[i as int]);
            if t.is_some() {
                return t;
            }
            assert(answers.skip(i as int).drop_first() =~= answers.skip(i + 1));
            i = i + 1;
        }
        None
    }
}

} // verus!
