use vstd::prelude::*;

use crate::bytes::str_eq;
use crate::record::field::{Value, ValueView};
use crate::record::schema::{schema_has, Schema};
use crate::scan::{row_has, row_value, Row, RowView};

verus! {

/// An expression over the fields of a record.
#[derive(Debug, PartialEq, Eq)]
pub enum Expression {
    NullConstant,
    I32Constant(i32),
    StringConstant(String),
    Field(String),
    Add(Box<Expression>, Box<Expression>),
    Sub(Box<Expression>, Box<Expression>),
    Mul(Box<Expression>, Box<Expression>),
    Div(Box<Expression>, Box<Expression>),
}

/// The model of an expression; strings are taken by their characters.
pub enum ExprView {
    Null,
    I32(i32),
    Str(Seq<char>),
    Field(Seq<char>),
    Add(Box<ExprView>, Box<ExprView>),
    Sub(Box<ExprView>, Box<ExprView>),
    Mul(Box<ExprView>, Box<ExprView>),
    Div(Box<ExprView>, Box<ExprView>),
}

/// The model of an expression.
pub open spec fn expr_view(e: Expression) -> ExprView
    decreases e,
{
    match e {
        Expression::NullConstant => ExprView::Null,
        Expression::I32Constant(i) => ExprView::I32(i),
        Expression::StringConstant(s) => ExprView::Str(s@),
        Expression::Field(s) => ExprView::Field(s@),
        Expression::Add(l, r) => ExprView::Add(Box::new(expr_view(*l)), Box::new(expr_view(*r))),
        Expression::Sub(l, r) => ExprView::Sub(Box::new(expr_view(*l)), Box::new(expr_view(*r))),
        Expression::Mul(l, r) => ExprView::Mul(Box::new(expr_view(*l)), Box::new(expr_view(*r))),
        Expression::Div(l, r) => ExprView::Div(Box::new(expr_view(*l)), Box::new(expr_view(*r))),
    }
}

impl View for Expression {
    type V = ExprView;

    open spec fn view(&self) -> ExprView {
        expr_view(*self)
    }
}

/// The four arithmetic operators.
#[derive(Debug, Clone, Copy, PartialEq, Eq)]
pub enum ArithOp {
    Add,
    Sub,
    Mul,
    Div,
}

/// Integer division that rounds toward zero, as Rust's `/` does.
pub open spec fn trunc_div(a: int, b: int) -> int {
    let q = (if a < 0 { -a } else { a }) / (if b < 0 { -b } else { b });
    if (a < 0) != (b < 0) {
        -q
    } else {
        q
    }
}

/// The exact result of an operator on two integers.
pub open spec fn int_result(op: ArithOp, x: int, y: int) -> int {
    match op {
        ArithOp::Add => x + y,
        ArithOp::Sub => x - y,
        ArithOp::Mul => x * y,
        ArithOp::Div => trunc_div(x, y),
    }
}

/// Whether an integer fits an `i32`.
pub open spec fn fits_i32(x: int) -> bool {
    i32::MIN <= x <= i32::MAX
}

/// An operator applied to two values: integers combine, a division by zero
/// gives `NULL`, `NULL` on either side gives `NULL`; other pairs give `None`.
pub open spec fn arith(op: ArithOp, a: ValueView, b: ValueView) -> Option<ValueView> {
    match (a, b) {
        (ValueView::I32(x), ValueView::I32(y)) => if op == ArithOp::Div && y == 0 {
            Some(ValueView::Null)
        } else {
            Some(ValueView::I32(int_result(op, x as int, y as int) as i32))
        },
        (ValueView::Null, _) => Some(ValueView::Null),
        (_, ValueView::Null) => Some(ValueView::Null),
        _ => None,
    }
}

/// Whether an operator on two integers leaves the range of `i32`.
pub open spec fn arith_overflows(op: ArithOp, a: ValueView, b: ValueView) -> bool {
    match (a, b) {
        (ValueView::I32(x), ValueView::I32(y)) => !(op == ArithOp::Div && y == 0) && !fits_i32(
            int_result(op, x as int, y as int),
        ),
        _ => false,
    }
}

/// The operator and operands of a binary expression.
pub open spec fn binary_parts(e: ExprView) -> Option<(ArithOp, ExprView, ExprView)> {
    match e {
        ExprView::Add(l, r) => Some((ArithOp::Add, *l, *r)),
        ExprView::Sub(l, r) => Some((ArithOp::Sub, *l, *r)),
        ExprView::Mul(l, r) => Some((ArithOp::Mul, *l, *r)),
        ExprView::Div(l, r) => Some((ArithOp::Div, *l, *r)),
        _ => None,
    }
}

/// The value of an expression on a row.
pub open spec fn eval(e: ExprView, row: RowView) -> ValueView
    decreases e,
{
    match e {
        ExprView::Null => ValueView::Null,
        ExprView::I32(i) => ValueView::I32(i),
        ExprView::Str(s) => ValueView::Str(s),
        ExprView::Field(name) => row_value(row, name),
        ExprView::Add(l, r) => arith_value(ArithOp::Add, eval(*l, row), eval(*r, row)),
        ExprView::Sub(l, r) => arith_value(ArithOp::Sub, eval(*l, row), eval(*r, row)),
        ExprView::Mul(l, r) => arith_value(ArithOp::Mul, eval(*l, row), eval(*r, row)),
        ExprView::Div(l, r) => arith_value(ArithOp::Div, eval(*l, row), eval(*r, row)),
    }
}

/// The value of an operator applied to two values, `NULL` where undefined.
pub open spec fn arith_value(op: ArithOp, a: ValueView, b: ValueView) -> ValueView {
    match arith(op, a, b) {
        Some(v) => v,
        None => ValueView::Null,
    }
}

/// Whether an expression can be evaluated on a row: its fields are in the row,
/// and no operator meets mismatched types or leaves the range of `i32`.
pub open spec fn evaluable(e: ExprView, row: RowView) -> bool
    decreases e,
{
    match e {
        ExprView::Field(name) => row_has(row, name),
        ExprView::Add(l, r) => evaluable(*l, row) && evaluable(*r, row) && arith_ok(
            ArithOp::Add,
            eval(*l, row),
            eval(*r, row),
        ),
        ExprView::Sub(l, r) => evaluable(*l, row) && evaluable(*r, row) && arith_ok(
            ArithOp::Sub,
            eval(*l, row),
            eval(*r, row),
        ),
        ExprView::Mul(l, r) => evaluable(*l, row) && evaluable(*r, row) && arith_ok(
            ArithOp::Mul,
            eval(*l, row),
            eval(*r, row),
        ),
        ExprView::Div(l, r) => evaluable(*l, row) && evaluable(*r, row) && arith_ok(
            ArithOp::Div,
            eval(*l, row),
            eval(*r, row),
        ),
        _ => true,
    }
}

/// Whether an operator can be applied to two values: the types match and the
/// result fits an `i32`.
pub open spec fn arith_ok(op: ArithOp, a: ValueView, b: ValueView) -> bool {
    arith(op, a, b).is_some() && !arith_overflows(op, a, b)
}

/// Whether an operator can be folded over two folds without overflow.
pub open spec fn fold_ok(op: ArithOp, a: Option<ValueView>, b: Option<ValueView>) -> bool {
    match (a, b) {
        (Some(x), Some(y)) => !arith_overflows(op, x, y),
        _ => true,
    }
}

/// The constant that an expression folds to, if it has no field in it that
/// matters: an operand that folds to `NULL` makes the whole `NULL`.
pub open spec fn fold(e: ExprView) -> Option<ValueView>
    decreases e,
{
    match e {
        ExprView::Null => Some(ValueView::Null),
        ExprView::I32(i) => Some(ValueView::I32(i)),
        ExprView::Str(s) => Some(ValueView::Str(s)),
        ExprView::Field(_) => None,
        ExprView::Add(l, r) => fold_binary(ArithOp::Add, fold(*l), fold(*r)),
        ExprView::Sub(l, r) => fold_binary(ArithOp::Sub, fold(*l), fold(*r)),
        ExprView::Mul(l, r) => fold_binary(ArithOp::Mul, fold(*l), fold(*r)),
        ExprView::Div(l, r) => fold_binary(ArithOp::Div, fold(*l), fold(*r)),
    }
}

/// Folding an operator over the folds of its operands.
pub open spec fn fold_binary(op: ArithOp, a: Option<ValueView>, b: Option<ValueView>) -> Option<
    ValueView,
> {
    match (a, b) {
        (Some(x), Some(y)) => arith(op, x, y),
        (Some(ValueView::Null), _) => Some(ValueView::Null),
        (_, Some(ValueView::Null)) => Some(ValueView::Null),
        _ => None,
    }
}

/// An expression that folds to a constant evaluates to that constant on
/// every row.
pub proof fn lemma_fold_sound(e: ExprView, row: RowView)
    ensures
        fold(e) matches Some(v) ==> eval(e, row) == v,
    decreases e,
{
    match e {
        ExprView::Add(l, r) => {
            lemma_fold_sound(*l, row);
            lemma_fold_sound(*r, row);
        },
        ExprView::Sub(l, r) => {
            lemma_fold_sound(*l, row);
            lemma_fold_sound(*r, row);
        },
        ExprView::Mul(l, r) => {
            lemma_fold_sound(*l, row);
            lemma_fold_sound(*r, row);
        },
        ExprView::Div(l, r) => {
            lemma_fold_sound(*l, row);
            lemma_fold_sound(*r, row);
        },
        _ => {},
    }
}

pub proof fn lemma_trunc_div(x: int, y: int)
    requires
        y != 0,
    ensures
        ({
            let q = trunc_div(x, y);
            let rem = x - q * y;
            &&& (if rem < 0 { -rem } else { rem }) < (if y < 0 { -(y as int) } else { y as int })
            &&& (rem == 0 || (rem < 0) == (x < 0))
        }),
{
    let ax: int = if x < 0 { -x } else { x };
    let ay: int = if y < 0 { -y } else { y };
    let q0 = ax / ay;
    let r0 = ax % ay;
    vstd::arithmetic::div_mod::lemma_fundamental_div_mod(ax, ay);
    assert(0 <= r0 < ay) by {
        vstd::arithmetic::div_mod::lemma_mod_bound(ax, ay);
    }
    let q = trunc_div(x, y);
    if (x < 0) != (y < 0) {
        assert(q == -q0);
    } else {
        assert(q == q0);
    }
    if x >= 0 && y > 0 {
        assert(x - q * y == r0) by (nonlinear_arith)
            requires
                ax == x,
                ay == y,
                q == q0,
                ax == ay * q0 + r0,
        ;
    } else if x >= 0 && y < 0 {
        assert(x - q * y == r0) by (nonlinear_arith)
            requires
                ax == x,
                ay == -y,
                q == -q0,
                ax == ay * q0 + r0,
        ;
    } else if x < 0 && y > 0 {
        assert(x - q * y == -r0) by (nonlinear_arith)
            requires
                ax == -x,
                ay == y,
                q == -q0,
                ax == ay * q0 + r0,
        ;
    } else {
        assert(x - q * y == -r0) by (nonlinear_arith)
            requires
                ax == -x,
                ay == -y,
                q == q0,
                ax == ay * q0 + r0,
        ;
    }
}

/// The operators compute on integer operands as arithmetic does: a sum, a
/// difference (the left operand minus the right), a product, and a quotient
/// rounded toward zero (what is left over is smaller than the divisor and
/// has the sign of the dividend), wherever the result fits an `i32`; a
/// division by zero gives `NULL`.
pub proof fn lemma_eval_arithmetic(l: ExprView, r: ExprView, row: RowView, x: i32, y: i32)
    requires
        eval(l, row) == ValueView::I32(x),
        eval(r, row) == ValueView::I32(y),
    ensures
        i32::MIN <= x + y <= i32::MAX ==> (eval(
            ExprView::Add(Box::new(l), Box::new(r)),
            row,
        ) matches ValueView::I32(v) && v == x + y),
        i32::MIN <= x - y <= i32::MAX ==> (eval(
            ExprView::Sub(Box::new(l), Box::new(r)),
            row,
        ) matches ValueView::I32(v) && v == x - y && v + y == x),
        i32::MIN <= x * y <= i32::MAX ==> (eval(
            ExprView::Mul(Box::new(l), Box::new(r)),
            row,
        ) matches ValueView::I32(v) && v == x * y),
        y == 0 ==> eval(ExprView::Div(Box::new(l), Box::new(r)), row) == ValueView::Null,
        y != 0 && !(x == i32::MIN && y == -1) ==> (eval(
            ExprView::Div(Box::new(l), Box::new(r)),
            row,
        ) matches ValueView::I32(q) && {
            let rem = x - q * y;
            &&& (if rem < 0 { -rem } else { rem }) < (if y < 0 { -(y as int) } else { y as int })
            &&& (rem == 0 || (rem < 0) == (x < 0))
        }),
{
    if y != 0 {
        lemma_trunc_div(x as int, y as int);
        let q = trunc_div(x as int, y as int);
        if !(x == i32::MIN && y == -1) {
            assert(fits_i32(q)) by {
                let ax: int = if x < 0 { -(x as int) } else { x as int };
                let ay: int = if y < 0 { -(y as int) } else { y as int };
                assert(ax / ay <= ax) by {
                    vstd::arithmetic::div_mod::lemma_div_is_ordered_by_denominator(ax, 1, ay);
                }
                assert(ax / ay >= 0) by {
                    vstd::arithmetic::div_mod::lemma_div_pos_is_pos(ax, ay);
                }
                if ay >= 2 {
                    vstd::arithmetic::div_mod::lemma_div_is_ordered_by_denominator(ax, 2, ay);
                } else {
                    assert(ay == 1);
                    vstd::arithmetic::div_mod::lemma_div_basics(ax);
                }
            }
        }
    }
}

/// An operator with a `NULL` operand gives `NULL`.
pub proof fn lemma_eval_null_operand(l: ExprView, r: ExprView, row: RowView)
    requires
        eval(l, row) is Null || eval(r, row) is Null,
    ensures
        eval(ExprView::Add(Box::new(l), Box::new(r)), row) is Null,
        eval(ExprView::Sub(Box::new(l), Box::new(r)), row) is Null,
        eval(ExprView::Mul(Box::new(l), Box::new(r)), row) is Null,
        eval(ExprView::Div(Box::new(l), Box::new(r)), row) is Null,
{
}

/// Whether folding an expression stays within the range of `i32`.
pub open spec fn foldable(e: ExprView) -> bool
    decreases e,
{
    match e {
        ExprView::Add(l, r) => foldable(*l) && foldable(*r) && fold_ok(ArithOp::Add, fold(*l), fold(*r)),
        ExprView::Sub(l, r) => foldable(*l) && foldable(*r) && fold_ok(ArithOp::Sub, fold(*l), fold(*r)),
        ExprView::Mul(l, r) => foldable(*l) && foldable(*r) && fold_ok(ArithOp::Mul, fold(*l), fold(*r)),
        ExprView::Div(l, r) => foldable(*l) && foldable(*r) && fold_ok(ArithOp::Div, fold(*l), fold(*r)),
        _ => true,
    }
}

/// Whether every field of an expression is in the schema.
pub open spec fn applies_to(e: ExprView, schema: Seq<(Seq<char>, crate::record::field::Spec)>) -> bool
    decreases e,
{
    match e {
        ExprView::Field(name) => schema_has(schema, name),
        ExprView::Add(l, r) => applies_to(*l, schema) && applies_to(*r, schema),
        ExprView::Sub(l, r) => applies_to(*l, schema) && applies_to(*r, schema),
        ExprView::Mul(l, r) => applies_to(*l, schema) && applies_to(*r, schema),
        ExprView::Div(l, r) => applies_to(*l, schema) && applies_to(*r, schema),
        _ => true,
    }
}

/// Applies an operator to two values, as `arith` says.
fn apply(op: ArithOp, a: Value, b: Value) -> (r: Option<Value>)
    requires
        !arith_overflows(op, a@, b@),
    ensures
        match r {
            Some(v) => arith(op, a@, b@) == Some(v@),
            None => arith(op, a@, b@).is_none(),
        },
{
    match (a, b) {
        (Value::I32(x), Value::I32(y)) => {
            match op {
                ArithOp::Add => Some(Value::I32(x + y)),
                ArithOp::Sub => Some(Value::I32(x - y)),
                ArithOp::Mul => Some(Value::I32(x * y)),
                ArithOp::Div => {
                    if y == 0 {
                        Some(Value::Null)
                    } else {
                        let ax: i64 = if x < 0 { -(x as i64) } else { x as i64 };
                        let ay: i64 = if y < 0 { -(y as i64) } else { y as i64 };
                        let q = ax / ay;
                        let v: i64 = if (x < 0) != (y < 0) { -q } else { q };
                        Some(Value::I32(v as i32))
                    }
                },
            }
        },
        (Value::Null, _) => Some(Value::Null),
        (_, Value::Null) => Some(Value::Null),
        _ => None,
    }
}

fn combine(op: ArithOp, l: Value, r: Value) -> (v: Value)
    requires
        arith_ok(op, l@, r@),
    ensures
        v@ == arith_value(op, l@, r@),
{
    match apply(op, l, r) {
        Some(v) => v,
        None => Value::Null,
    }
}

fn fold_values(op: ArithOp, l: Option<Value>, r: Option<Value>) -> (v: Option<Value>)
    requires
        fold_ok(op, opt_view(l), opt_view(r)),
    ensures
        match v {
            Some(x) => fold_binary(op, opt_view(l), opt_view(r)) == Some(x@),
            None => fold_binary(op, opt_view(l), opt_view(r)).is_none(),
        },
{
    match (l, r) {
        (Some(a), Some(b)) => apply(op, a, b),
        (Some(Value::Null), _) => Some(Value::Null),
        (_, Some(Value::Null)) => Some(Value::Null),
        _ => None,
    }
}

/// The model of an optional value.
pub open spec fn opt_view(v: Option<Value>) -> Option<ValueView> {
    match v {
        Some(x) => Some(x@),
        None => None,
    }
}

impl Expression {
    /// Evaluates the expression on a row. The row must have the fields that it
    /// names, and no operator may meet mismatched types or overflow.
    pub fn evaluate(&self, row: &Row) -> (r: Value)
        requires
            evaluable(self@, row@),
        ensures
            r@ == eval(self@, row@),
        decreases self,
    {
        match self {
            Expression::NullConstant => Value::Null,
            Expression::I32Constant(value) => Value::I32(*value),
            Expression::StringConstant(value) => Value::String(value.clone()),
            Expression::Field(field_name) => row.get_value(field_name.as_str()),
            Expression::Add(lhs, rhs) => {
                let l = lhs.evaluate(row);
                let r = rhs.evaluate(row);
                combine(ArithOp::Add, l, r)
            },
            Expression::Sub(lhs, rhs) => {
                let l = lhs.evaluate(row);
                let r = rhs.evaluate(row);
                combine(ArithOp::Sub, l, r)
            },
            Expression::Mul(lhs, rhs) => {
                let l = lhs.evaluate(row);
                let r = rhs.evaluate(row);
                combine(ArithOp::Mul, l, r)
            },
            Expression::Div(lhs, rhs) => {
                let l = lhs.evaluate(row);
                let r = rhs.evaluate(row);
                combine(ArithOp::Div, l, r)
            },
        }
    }

    /// The field that the expression names, if it is a field reference.
    pub fn try_get_field(&self) -> (r: Option<&str>)
        ensures
            match r {
                Some(s) => self@ == ExprView::Field(s@),
                None => !(self@ is Field),
            },
    {
        match self {
            Expression::Field(field_name) => Some(field_name.as_str()),
            _ => None,
        }
    }

    /// The constant that the expression folds to, if it needs no field.
    pub fn try_get_constant(&self) -> (r: Option<Value>)
        requires
            foldable(self@),
        ensures
            match r {
                Some(v) => fold(self@) == Some(v@),
                None => fold(self@).is_none(),
            },
        decreases self,
    {
        match self {
            Expression::NullConstant => Some(Value::Null),
            Expression::I32Constant(value) => Some(Value::I32(*value)),
            Expression::StringConstant(value) => Some(Value::String(value.clone())),
            Expression::Field(_) => None,
            Expression::Add(lhs, rhs) => {
                let l = lhs.try_get_constant();
                let r = rhs.try_get_constant();
                fold_values(ArithOp::Add, l, r)
            },
            Expression::Sub(lhs, rhs) => {
                let l = lhs.try_get_constant();
                let r = rhs.try_get_constant();
                fold_values(ArithOp::Sub, l, r)
            },
            Expression::Mul(lhs, rhs) => {
                let l = lhs.try_get_constant();
                let r = rhs.try_get_constant();
                fold_values(ArithOp::Mul, l, r)
            },
            Expression::Div(lhs, rhs) => {
                let l = lhs.try_get_constant();
                let r = rhs.try_get_constant();
                fold_values(ArithOp::Div, l, r)
            },
        }
    }

    /// Whether every field that the expression names is in the schema.
    pub fn is_applied_to(&self, schema: &Schema) -> (r: bool)
        ensures
            r == applies_to(self@, schema@),
        decreases self,
    {
        match self {
            Expression::Field(field_name) => schema.has_field(field_name.as_str()),
            Expression::Add(lhs, rhs) => lhs.is_applied_to(schema) && rhs.is_applied_to(schema),
            Expression::Sub(lhs, rhs) => lhs.is_applied_to(schema) && rhs.is_applied_to(schema),
            Expression::Mul(lhs, rhs) => lhs.is_applied_to(schema) && rhs.is_applied_to(schema),
            Expression::Div(lhs, rhs) => lhs.is_applied_to(schema) && rhs.is_applied_to(schema),
            _ => true,
        }
    }

    /// A copy of the expression.
    pub fn duplicate(&self) -> (r: Expression)
        ensures
            r@ == self@,
        decreases self,
    {
        match self {
            Expression::NullConstant => Expression::NullConstant,
            Expression::I32Constant(v) => Expression::I32Constant(*v),
            Expression::StringConstant(s) => Expression::StringConstant(s.clone()),
            Expression::Field(s) => Expression::Field(s.clone()),
            Expression::Add(a, b) => Expression::Add(Box::new(a.duplicate()), Box::new(b.duplicate())),
            Expression::Sub(a, b) => Expression::Sub(Box::new(a.duplicate()), Box::new(b.duplicate())),
            Expression::Mul(a, b) => Expression::Mul(Box::new(a.duplicate()), Box::new(b.duplicate())),
            Expression::Div(a, b) => Expression::Div(Box::new(a.duplicate()), Box::new(b.duplicate())),
        }
    }

    /// Whether two expressions are the same expression.
    pub fn equals(&self, other: &Expression) -> (r: bool)
        ensures
            r == (self@ == other@),
        decreases self,
    {
        match (self, other) {
            (Expression::NullConstant, Expression::NullConstant) => true,
            (Expression::I32Constant(a), Expression::I32Constant(b)) => *a == *b,
            (Expression::StringConstant(a), Expression::StringConstant(b)) => str_eq(
                a.as_str(),
                b.as_str(),
            ),
            (Expression::Field(a), Expression::Field(b)) => str_eq(a.as_str(), b.as_str()),
            (Expression::Add(a, b), Expression::Add(c, d)) => a.equals(c) && b.equals(d),
            (Expression::Sub(a, b), Expression::Sub(c, d)) => a.equals(c) && b.equals(d),
            (Expression::Mul(a, b), Expression::Mul(c, d)) => a.equals(c) && b.equals(d),
            (Expression::Div(a, b), Expression::Div(c, d)) => a.equals(c) && b.equals(d),
            _ => false,
        }
    }
}

} // verus!
