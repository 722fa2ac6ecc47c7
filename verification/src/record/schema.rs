use vstd::prelude::*;

use crate::bytes::str_eq;
use crate::record::field::{spec_type_of, Spec, Type};

verus! {

/// The model of a schema: its fields in order, each a name and a declared type.
pub type SchemaView = Seq<(Seq<char>, Spec)>;

/// Whether the schema has a field of that name.
pub open spec fn schema_has(v: SchemaView, name: Seq<char>) -> bool {
    exists|i: int| 0 <= i < v.len() && #[trigger] v[i].0 == name
}

/// The position of the first field of that name.
pub open spec fn field_position(v: SchemaView, name: Seq<char>) -> int {
    choose|i: int|
        0 <= i < v.len() && v[i].0 == name && forall|j: int| 0 <= j < i ==> v[j].0 != name
}

/// The declared type of the field of that name.
pub open spec fn field_spec(v: SchemaView, name: Seq<char>) -> Spec {
    v[field_position(v, name)].1
}

/// The schema with a field added at the end, unless one of that name is there.
pub open spec fn with_field(v: SchemaView, name: Seq<char>, spec: Spec) -> SchemaView {
    if schema_has(v, name) {
        v
    } else {
        v.push((name, spec))
    }
}

/// The schema with each field of `w` added in turn.
pub open spec fn with_all(v: SchemaView, w: SchemaView) -> SchemaView
    decreases w.len(),
{
    if w.len() == 0 {
        v
    } else {
        with_field(with_all(v, w.drop_last()), w.last().0, w.last().1)
    }
}

/// Whether no two fields of a schema share a name.
pub open spec fn names_distinct(v: SchemaView) -> bool {
    forall|i: int, j: int| 0 <= i < j < v.len() ==> (#[trigger] v[i]).0 != (#[trigger] v[j]).0
}

/// Adding a field leaves the schema with a field of that name, keeps every
/// field it had where it was, adds at most that one field, at the end, and
/// never gives two fields the same name.
pub proof fn lemma_with_field(v: SchemaView, name: Seq<char>, spec: Spec)
    ensures
        schema_has(with_field(v, name, spec), name),
        with_field(v, name, spec).len() == v.len() + if schema_has(v, name) { 0int } else { 1int },
        forall|i: int| 0 <= i < v.len() ==> with_field(v, name, spec)[i] == v[i],
        !schema_has(v, name) ==> with_field(v, name, spec).last() == (name, spec),
        names_distinct(v) ==> names_distinct(with_field(v, name, spec)),
{
    if !schema_has(v, name) {
        let w = v.push((name, spec));
        assert(w[v.len() as int].0 == name);
    }
}

/// The names and declared types of a record's fields.
#[derive(Debug, Clone, PartialEq, Eq)]
pub struct Schema {
    fields: Vec<(String, Spec)>,
}

impl View for Schema {
    type V = SchemaView;

    closed spec fn view(&self) -> SchemaView {
        self.fields@.map_values(|p: (String, Spec)| (p.0@, p.1))
    }
}

impl Schema {
    /// A schema with no fields.
    pub fn new() -> (s: Self)
        ensures
            s@ == Seq::<(Seq<char>, Spec)>::empty(),
    {
        let s = Schema { fields: Vec::new() };
        assert(s@ =~= Seq::<(Seq<char>, Spec)>::empty());
        s
    }

    /// A copy of the schema.
    pub fn duplicate(&self) -> (r: Schema)
        ensures
            r@ == self@,
    {
        let mut fields: Vec<(String, Spec)> = Vec::new();
        let mut i: usize = 0;
        while i < self.fields.len()
            invariant
                i <= self.fields@.len(),
                fields@.len() == i,
                forall|j: int| 0 <= j < i ==> (#[trigger] fields@[j]).0@ == self.fields@[j].0@
                    && fields@[j].1 == self.fields@[j].1,
            decreases self.fields@.len() - i,
        {
            let pair = &self.fields[i];
            fields.push((pair.0.clone(), pair.1));
            i = i + 1;
        }
        let r = Schema { fields };
        assert(r@ =~= self@);
        r
    }

    fn position(&self, name: &str) -> (r: Option<usize>)
        ensures
            match r {
                Some(i) => i < self@.len() && self@[i as int].0 == name@ && field_position(
                    self@,
                    name@,
                ) == i,
                None => !schema_has(self@, name@),
            },
    {
        let mut i: usize = 0;
        while i < self.fields.len()
            invariant
                i <= self.fields@.len(),
                forall|j: int| 0 <= j < i ==> self@[j].0 != name@,
            decreases self.fields@.len() - i,
        {
            if str_eq(self.fields[i].0.as_str(), name) {
                assert(self@[i as int].0 == name@);
                let ghost p = field_position(self@, name@);
                assert(0 <= i < self@.len() && self@[i as int].0 == name@ && forall|j: int|
                    0 <= j < i ==> self@[j].0 != name@);
                assert(p == i) by {
                    if p < i {
                    } else if p > i {
                    }
                }
                return Some(i);
            }
            i = i + 1;
        }
        None
    }

    /// Whether the schema has a field of that name.
    pub fn has_field(&self, name: &str) -> (r: bool)
        ensures
            r == schema_has(self@, name@),
    {
        self.position(name).is_some()
    }

    /// Adds a field at the end, unless one of that name is there already.
    pub fn add_field(&mut self, name: &str, spec: &Spec)
        ensures
            final(self)@ == with_field(old(self)@, name@, *spec),
    {
        if !self.has_field(name) {
            let ghost before = self@;
            self.fields.push((name.to_owned(), *spec));
            assert(self@ =~= before.push((name@, *spec)));
        }
    }

    /// Adds an integer field.
    pub fn add_i32_field(&mut self, name: &str)
        ensures
            final(self)@ == with_field(old(self)@, name@, Spec::I32),
    {
        self.add_field(name, &Spec::I32)
    }

    /// Adds a string field of at most `length` characters.
    pub fn add_string_field(&mut self, name: &str, length: usize)
        ensures
            final(self)@ == with_field(old(self)@, name@, Spec::VarChar(length)),
    {
        self.add_field(name, &Spec::VarChar(length))
    }

    /// Adds each field of `other` in turn.
    pub fn add_all(&mut self, other: &Schema)
        ensures
            final(self)@ == with_all(old(self)@, other@),
    {
        let mut i: usize = 0;
        let n = other.fields.len();
        assert(other@.take(0) =~= Seq::<(Seq<char>, Spec)>::empty());
        while i < n
            invariant
                i <= n,
                n == other@.len(),
                self@ == with_all(old(self)@, other@.take(i as int)),
            decreases n - i,
        {
            let pair = &other.fields[i];
            self.add_field(pair.0.as_str(), &pair.1);
            assert(other@.take(i + 1).drop_last() =~= other@.take(i as int));
            i = i + 1;
        }
        assert(other@.take(n as int) =~= other@);
    }

    /// The declared type of the named field, which must be in the schema.
    pub fn get_field_spec(&self, name: &str) -> (r: Spec)
        requires
            schema_has(self@, name@),
        ensures
            r == field_spec(self@, name@),
    {
        match self.position(name) {
            Some(i) => self.fields[i].1,
            None => {
                proof {
                    assert(false);
                }
                Spec::I32
            },
        }
    }

    /// The type of the named field, which must be in the schema.
    pub fn get_field_type(&self, name: &str) -> (r: Type)
        requires
            schema_has(self@, name@),
        ensures
            r == spec_type_of(field_spec(self@, name@)),
    {
        self.get_field_spec(name).get_type()
    }

    /// The names of the fields, in order.
    pub fn get_fields(&self) -> (r: Vec<String>)
        ensures
            r@.len() == self@.len(),
            forall|i: int| 0 <= i < r@.len() ==> #[trigger] r@[i]@ == self@[i].0,
    {
        let mut r: Vec<String> = Vec::new();
        let mut i: usize = 0;
        while i < self.fields.len()
            invariant
                i <= self.fields@.len(),
                r@.len() == i,
                forall|j: int| 0 <= j < i ==> #[trigger] r@[j]@ == self@[j].0,
            decreases self.fields@.len() - i,
        {
            r.push(self.fields[i].0.clone());
            i = i + 1;
        }
        r
    }
}

} // verus!
