use vstd::prelude::*;

use crate::record::field::Spec;

verus! {

/// A statement of the earlier, smaller grammar.
#[derive(Debug, PartialEq, Eq)]
pub enum Statement {
    Query(QueryCommand),
    UpdateCommand(UpdateCommand),
}

/// A query of the earlier grammar: fields, tables and an optional condition.
#[derive(Debug, PartialEq, Eq)]
pub struct QueryCommand {
    fields: Vec<String>,
    tables: Vec<String>,
    predicate: Option<Predicate>,
}

impl QueryCommand {
    /// The query of `fields` over `tables` under `predicate`.
    pub fn new(fields: Vec<String>, tables: Vec<String>, predicate: Option<Predicate>) -> (q: Self)
        ensures
            q.fields() == fields,
            q.tables() == tables,
            q.predicate() == predicate,
    {
        QueryCommand { fields, tables, predicate }
    }

    /// The queried fields.
    pub closed spec fn fields(&self) -> Vec<String> {
        self.fields
    }

    /// The queried tables.
    pub closed spec fn tables(&self) -> Vec<String> {
        self.tables
    }

    /// The query's condition.
    pub closed spec fn predicate(&self) -> Option<Predicate> {
        self.predicate
    }
}

/// An update of the earlier grammar.
#[derive(Debug, PartialEq, Eq)]
pub enum UpdateCommand {
    Insert(String, Vec<String>, Vec<Constant>),
    Delete(String, Option<Predicate>),
    Modify(String, String, Expression, Option<Predicate>),
    Create(CreateCommand),
}

/// A creation of the earlier grammar.
#[derive(Debug, PartialEq, Eq)]
pub enum CreateCommand {
    Table(String, Vec<FieldDefinition>),
    View(String, QueryCommand),
    Index(String, String, String),
}

/// A field definition of the earlier grammar.
#[derive(Debug, PartialEq, Eq)]
pub struct FieldDefinition {
    name: String,
    field_type: Spec,
}

impl FieldDefinition {
    /// The definition of a field named `name` of type `field_type`.
    pub fn new(name: String, field_type: Spec) -> (d: Self)
        ensures
            d.name() == name,
            d.field_type() == field_type,
    {
        FieldDefinition { name, field_type }
    }

    /// The field's name.
    pub closed spec fn name(&self) -> String {
        self.name
    }

    /// The field's declared type.
    pub closed spec fn field_type(&self) -> Spec {
        self.field_type
    }
}

/// A condition of the earlier grammar: a conjunction of terms.
#[derive(Debug, PartialEq, Eq)]
pub struct Predicate {
    terms: Vec<Term>,
}

impl Predicate {
    /// The conjunction of `terms`.
    pub fn new(terms: Vec<Term>) -> (p: Self)
        ensures
            p.terms() == terms,
    {
        Predicate { terms }
    }

    /// The terms of the condition.
    pub closed spec fn terms(&self) -> Vec<Term> {
        self.terms
    }
}

/// A term of the earlier grammar.
#[derive(Debug, PartialEq, Eq)]
pub enum Term {
    EqualityTerm(Expression, Expression),
}

/// An expression of the earlier grammar.
#[derive(Debug, PartialEq, Eq)]
pub enum Expression {
    I32Constant(i32),
    StringConstant(String),
    FieldExpression(String),
}

/// A constant of the earlier grammar.
#[derive(Debug, PartialEq, Eq)]
pub enum Constant {
    I32(i32),
    String(String),
}

} // verus!
