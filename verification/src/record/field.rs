use vstd::prelude::*;
use vstd::string::*;

verus! {

/// The declared type of a field, with its maximum length for strings.
#[derive(Debug, Clone, Copy, PartialEq, Eq, Hash)]
pub enum Spec {
    I32,
    VarChar(usize),
}

/// The type of a field, without a length.
#[derive(Debug, Clone, Copy, PartialEq, Eq, Hash)]
pub enum Type {
    I32,
    String,
}

/// A field value: SQL `NULL`, an integer, or a string.
#[derive(Debug, Clone, PartialEq, Eq, Hash)]
pub enum Value {
    Null,
    I32(i32),
    String(String),
}

/// The model of a value; strings are taken by their characters.
pub enum ValueView {
    Null,
    I32(i32),
    Str(Seq<char>),
}

impl View for Value {
    type V = ValueView;

    open spec fn view(&self) -> ValueView {
        match self {
            Value::Null => ValueView::Null,
            Value::I32(i) => ValueView::I32(*i),
            Value::String(s) => ValueView::Str(s@),
        }
    }
}

/// The three-way comparison of two byte strings in dictionary order:
/// -1, 0 or 1.
pub open spec fn bytes_order(a: Seq<u8>, b: Seq<u8>) -> int
    decreases a.len(),
{
    if a.len() == 0 {
        if b.len() == 0 {
            0
        } else {
            -1
        }
    } else if b.len() == 0 {
        1
    } else if a[0] < b[0] {
        -1
    } else if a[0] > b[0] {
        1
    } else {
        bytes_order(a.drop_first(), b.drop_first())
    }
}

/// The order of values: `NULL` first, then integers by magnitude, then
/// strings in dictionary order of their UTF-8 bytes. The result is -1, 0 or 1.
pub open spec fn value_order(a: ValueView, b: ValueView) -> int {
    match (a, b) {
        (ValueView::Null, ValueView::Null) => 0,
        (ValueView::Null, _) => -1,
        (_, ValueView::Null) => 1,
        (ValueView::I32(x), ValueView::I32(y)) => if x < y {
            -1
        } else if x > y {
            1
        } else {
            0
        },
        (ValueView::I32(_), ValueView::Str(_)) => -1,
        (ValueView::Str(_), ValueView::I32(_)) => 1,
        (ValueView::Str(x), ValueView::Str(y)) => bytes_order(
            vstd::utf8::encode_utf8(x),
            vstd::utf8::encode_utf8(y),
        ),
    }
}

/// The type that a declared field type names.
pub open spec fn spec_type_of(spec: Spec) -> Type {
    match spec {
        Spec::I32 => Type::I32,
        Spec::VarChar(_) => Type::String,
    }
}

/// The catalog code of a type.
pub open spec fn type_code(t: Type) -> i32 {
    match t {
        Type::I32 => 0,
        Type::String => 1,
    }
}

fn compare_bytes(a: &[u8], b: &[u8]) -> (r: i8)
    ensures
        r == bytes_order(a@, b@),
{
    let mut i: usize = 0;
    let n = a.len();
    let m = b.len();
    assert(a@.skip(0) =~= a@);
    assert(b@.skip(0) =~= b@);
    while i < n && i < m
        invariant
            i <= n,
            i <= m,
            n == a@.len(),
            m == b@.len(),
            bytes_order(a@, b@) == bytes_order(a@.skip(i as int), b@.skip(i as int)),
        decreases n - i,
    {
        if a[i] < b[i] {
            return -1;
        } else if a[i] > b[i] {
            return 1;
        }
        assert(a@.skip(i as int).drop_first() =~= a@.skip(i + 1));
        assert(b@.skip(i as int).drop_first() =~= b@.skip(i + 1));
        i = i + 1;
    }
    if i < m {
        -1
    } else if i < n {
        1
    } else {
        0
    }
}

impl Type {
    /// The code under which the type is stored in the catalog.
    pub fn to_code(&self) -> (code: i32)
        ensures
            code == type_code(*self),
    {
        match self {
            Type::I32 => 0,
            Type::String => 1,
        }
    }

    /// The type stored under `code`, if `code` names one.
    pub fn from_code(code: i32) -> (r: Option<Type>)
        ensures
            match r {
                Some(t) => type_code(t) == code,
                None => code != 0 && code != 1,
            },
    {
        if code == 0 {
            Some(Type::I32)
        } else if code == 1 {
            Some(Type::String)
        } else {
            None
        }
    }
}

impl Spec {
    /// The type of a field declared with this spec.
    pub fn get_type(&self) -> (t: Type)
        ensures
            t == spec_type_of(*self),
    {
        match self {
            Spec::I32 => Type::I32,
            Spec::VarChar(_) => Type::String,
        }
    }
}

impl Value {
    /// A copy of this value.
    pub fn duplicate(&self) -> (r: Value)
        ensures
            r@ == self@,
    {
        match self {
            Value::Null => Value::Null,
            Value::I32(i) => Value::I32(*i),
            Value::String(s) => Value::String(s.clone()),
        }
    }

    /// Whether two values are the same value.
    pub fn equals(&self, other: &Value) -> (r: bool)
        ensures
            r == (self@ == other@),
    {
        match (self, other) {
            (Value::Null, Value::Null) => true,
            (Value::I32(a), Value::I32(b)) => *a == *b,
            (Value::String(a), Value::String(b)) => *a == *b,
            _ => false,
        }
    }

    /// Whether this value is `NULL`.
    pub fn is_null(&self) -> (r: bool)
        ensures
            r == (self@ is Null),
    {
        match self {
            Value::Null => true,
            _ => false,
        }
    }

    /// The three-way comparison of two values: -1, 0 or 1.
    pub fn compare_to(&self, other: &Value) -> (r: i8)
        ensures
            r == value_order(self@, other@),
    {
        match (self, other) {
            (Value::Null, Value::Null) => 0,
            (Value::Null, _) => -1,
            (_, Value::Null) => 1,
            (Value::I32(a), Value::I32(b)) => if *a < *b {
                -1
            } else if *a > *b {
                1
            } else {
                0
            },
            (Value::I32(_), Value::String(_)) => -1,
            (Value::String(_), Value::I32(_)) => 1,
            (Value::String(a), Value::String(b)) => compare_bytes(
                a.as_str().as_bytes(),
                b.as_str().as_bytes(),
            ),
        }
    }
}


/// Dictionary order on byte strings is antisymmetric, is zero only on equal
/// strings, and is transitive.
pub proof fn lemma_bytes_order(a: Seq<u8>, b: Seq<u8>, c: Seq<u8>)
    ensures
        bytes_order(a, b) == -bytes_order(b, a),
        bytes_order(a, b) == 0 <==> a == b,
        bytes_order(a, b) <= 0 && bytes_order(b, c) <= 0 ==> bytes_order(a, c) <= 0,
        -1 <= bytes_order(a, b) <= 1,
    decreases a.len(),
{
    if a.len() > 0 && b.len() > 0 {
        if c.len() > 0 {
            lemma_bytes_order(a.drop_first(), b.drop_first(), c.drop_first());
        } else {
            lemma_bytes_order(a.drop_first(), b.drop_first(), c);
        }
        if a[0] == b[0] && bytes_order(a.drop_first(), b.drop_first()) == 0 {
            assert(a =~= seq![a[0]] + a.drop_first());
            assert(b =~= seq![b[0]] + b.drop_first());
        }
    } else if a.len() == 0 && b.len() == 0 {
        assert(a =~= b);
    }
}

/// A byte string orders before every longer string that it begins, and
/// after it the other way round.
pub proof fn lemma_bytes_order_prefix(p: Seq<u8>, q: Seq<u8>)
    requires
        q.len() > 0,
    ensures
        bytes_order(p, p + q) == -1,
        bytes_order(p + q, p) == 1,
    decreases p.len(),
{
    if p.len() > 0 {
        assert((p + q)[0] == p[0]);
        assert((p + q).drop_first() =~= p.drop_first() + q);
        lemma_bytes_order_prefix(p.drop_first(), q);
    } else {
        assert(p + q =~= q);
    }
}

/// Two byte strings are ordered by their first difference: where they agree
/// on the first `k` bytes and the next byte of `a` is smaller than that of
/// `b`, `a` orders before `b`, whatever their lengths.
pub proof fn lemma_bytes_order_first_difference(a: Seq<u8>, b: Seq<u8>, k: int)
    requires
        0 <= k < a.len(),
        k < b.len(),
        a.take(k) == b.take(k),
        a[k] < b[k],
    ensures
        bytes_order(a, b) == -1,
        bytes_order(b, a) == 1,
    decreases k,
{
    if k > 0 {
        assert(a[0] == a.take(k)[0]);
        assert(b[0] == b.take(k)[0]);
        assert(a.drop_first().take(k - 1) =~= a.take(k).drop_first());
        assert(b.drop_first().take(k - 1) =~= b.take(k).drop_first());
        lemma_bytes_order_first_difference(a.drop_first(), b.drop_first(), k - 1);
    }
}

/// `NULL` orders before every other value, integers before strings, and
/// integers by magnitude.
pub proof fn lemma_value_order_kinds(a: ValueView, b: ValueView)
    ensures
        a is Null && !(b is Null) ==> value_order(a, b) == -1,
        a is I32 && b is Str ==> value_order(a, b) == -1,
        (a matches ValueView::I32(x) && b matches ValueView::I32(y)) ==> (value_order(a, b) < 0
            <==> a->I32_0 < b->I32_0) && (value_order(a, b) == 0 <==> a->I32_0 == b->I32_0),
{
}

/// The order of values is antisymmetric, is zero only on equal values, and
/// is transitive.
pub proof fn lemma_value_order(a: ValueView, b: ValueView, c: ValueView)
    ensures
        value_order(a, b) == -value_order(b, a),
        value_order(a, b) == 0 <==> a == b,
        value_order(a, b) <= 0 && value_order(b, c) <= 0 ==> value_order(a, c) <= 0,
        -1 <= value_order(a, b) <= 1,
{
    match (a, b) {
        (ValueView::Str(x), ValueView::Str(y)) => {
            let ex = vstd::utf8::encode_utf8(x);
            let ey = vstd::utf8::encode_utf8(y);
            match c {
                ValueView::Str(z) => {
                    lemma_bytes_order(ex, ey, vstd::utf8::encode_utf8(z));
                },
                _ => {
                    lemma_bytes_order(ex, ey, ey);
                },
            }
            if ex == ey {
                crate::bytes::lemma_utf8_injective(x, y);
            }
        },
        _ => {
            match (b, c) {
                (ValueView::Str(y), ValueView::Str(z)) => {
                    lemma_bytes_order(
                        vstd::utf8::encode_utf8(y),
                        vstd::utf8::encode_utf8(z),
                        vstd::utf8::encode_utf8(z),
                    );
                },
                _ => {},
            }
            match (a, c) {
                (ValueView::Str(x), ValueView::Str(z)) => {
                    lemma_bytes_order(
                        vstd::utf8::encode_utf8(x),
                        vstd::utf8::encode_utf8(z),
                        vstd::utf8::encode_utf8(z),
                    );
                },
                _ => {},
            }
        },
    }
}

} // verus!
