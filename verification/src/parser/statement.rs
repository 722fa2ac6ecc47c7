use vstd::prelude::*;

use crate::materialization::aggregation_function::{AggregationFn, AggregationView};
use crate::parser::expression::{ExprView, Expression};
use crate::parser::predicate::{Predicate, TermView};
use crate::record::field::{Spec, Value, ValueView};

verus! {

/// A parsed SQL statement.
#[derive(Debug, PartialEq, Eq)]
pub enum Statement {
    Query(QueryData),
    UpdateCommand(UpdateCommand),
}

/// One item of a select list.
#[derive(Debug, PartialEq, Eq)]
pub enum SelectField {
    Expression(Expression, Option<String>),
    Aggregation(AggregationFn),
}

/// A parsed query.
#[derive(Debug, PartialEq, Eq)]
pub struct QueryData {
    /// The fields to output; `None` means all fields.
    pub fields: Option<Vec<String>>,
    pub tables: Vec<String>,
    pub predicate: Option<Predicate>,
    /// The grouping fields; `None` means no grouping.
    pub group_by: Option<Vec<String>>,
    /// The ordering fields; `None` means no ordering.
    pub order_by: Option<Vec<String>>,
    /// Computed fields: an expression and the name it is given.
    pub extend_fields: Vec<(Expression, String)>,
    pub aggregation_functions: Vec<AggregationFn>,
}

impl QueryData {
    /// A query with every part given.
    pub fn new_full(
        fields: Option<Vec<String>>,
        tables: Vec<String>,
        predicate: Option<Predicate>,
        group_by: Option<Vec<String>>,
        order_by: Option<Vec<String>>,
        extend_fields: Vec<(Expression, String)>,
        aggregation_functions: Vec<AggregationFn>,
    ) -> (q: Self)
        ensures
            q.fields == fields,
            q.tables == tables,
            q.predicate == predicate,
            q.group_by == group_by,
            q.order_by == order_by,
            q.extend_fields == extend_fields,
            q.aggregation_functions == aggregation_functions,
    {
        QueryData {
            fields,
            tables,
            predicate,
            group_by,
            order_by,
            extend_fields,
            aggregation_functions,
        }
    }

    /// A query of the given fields, with no grouping, ordering or computed fields.
    pub fn new(fields: Vec<String>, tables: Vec<String>, predicate: Option<Predicate>) -> (q: Self)
        ensures
            q.fields == Some(fields),
            q.tables == tables,
            q.predicate == predicate,
            q.group_by.is_none(),
            q.order_by.is_none(),
            q.extend_fields@.len() == 0,
            q.aggregation_functions@.len() == 0,
    {
        QueryData::new_with_order_and_extend(fields, tables, predicate, None, Vec::new())
    }

    /// A query of all fields, with no grouping, ordering or computed fields.
    pub fn new_all(tables: Vec<String>, predicate: Option<Predicate>) -> (q: Self)
        ensures
            q.fields.is_none(),
            q.tables == tables,
            q.predicate == predicate,
            q.group_by.is_none(),
            q.order_by.is_none(),
            q.extend_fields@.len() == 0,
            q.aggregation_functions@.len() == 0,
    {
        QueryData::new_all_with_order(tables, predicate, None)
    }

    /// A query of the given fields in the given order.
    pub fn new_with_order(
        fields: Vec<String>,
        tables: Vec<String>,
        predicate: Option<Predicate>,
        order_by: Option<Vec<String>>,
    ) -> (q: Self)
        ensures
            q.fields == Some(fields),
            q.tables == tables,
            q.predicate == predicate,
            q.group_by.is_none(),
            q.order_by == order_by,
            q.extend_fields@.len() == 0,
            q.aggregation_functions@.len() == 0,
    {
        QueryData::new_full(Some(fields), tables, predicate, None, order_by, Vec::new(), Vec::new())
    }

    /// A query of all fields in the given order.
    pub fn new_all_with_order(
        tables: Vec<String>,
        predicate: Option<Predicate>,
        order_by: Option<Vec<String>>,
    ) -> (q: Self)
        ensures
            q.fields.is_none(),
            q.tables == tables,
            q.predicate == predicate,
            q.group_by.is_none(),
            q.order_by == order_by,
            q.extend_fields@.len() == 0,
            q.aggregation_functions@.len() == 0,
    {
        QueryData::new_full(None, tables, predicate, None, order_by, Vec::new(), Vec::new())
    }

    /// A query of the given fields in the given order, with computed fields.
    pub fn new_with_order_and_extend(
        fields: Vec<String>,
        tables: Vec<String>,
        predicate: Option<Predicate>,
        order_by: Option<Vec<String>>,
        extend_fields: Vec<(Expression, String)>,
    ) -> (q: Self)
        ensures
            q.fields == Some(fields),
            q.tables == tables,
            q.predicate == predicate,
            q.group_by.is_none(),
            q.order_by == order_by,
            q.extend_fields == extend_fields,
            q.aggregation_functions@.len() == 0,
    {
        QueryData::new_full(
            Some(fields),
            tables,
            predicate,
            None,
            order_by,
            extend_fields,
            Vec::new(),
        )
    }

    /// A query of all fields in the given order, with computed fields.
    pub fn new_all_with_order_and_extend(
        tables: Vec<String>,
        predicate: Option<Predicate>,
        order_by: Option<Vec<String>>,
        extend_fields: Vec<(Expression, String)>,
    ) -> (q: Self)
        ensures
            q.fields.is_none(),
            q.tables == tables,
            q.predicate == predicate,
            q.group_by.is_none(),
            q.order_by == order_by,
            q.extend_fields == extend_fields,
            q.aggregation_functions@.len() == 0,
    {
        QueryData::new_full(None, tables, predicate, None, order_by, extend_fields, Vec::new())
    }
}

/// A parsed statement that changes the database.
#[derive(Debug, PartialEq, Eq)]
pub enum UpdateCommand {
    /// Table, fields, values.
    Insert(String, Vec<String>, Vec<Value>),
    /// Table and an optional condition.
    Delete(String, Option<Predicate>),
    /// Table, field, new value and an optional condition.
    Modify(String, String, Expression, Option<Predicate>),
    Create(CreateCommand),
}

/// A parsed statement that creates a table, a view or an index.
#[derive(Debug, PartialEq, Eq)]
pub enum CreateCommand {
    /// Table name and field definitions.
    Table(String, Vec<FieldDefinition>),
    /// View name and its query.
    View(String, QueryData),
    /// Index name, table name, field name.
    Index(String, String, String),
}

/// A field of a table being created: its name and declared type.
#[derive(Debug, PartialEq, Eq)]
pub struct FieldDefinition {
    pub name: String,
    pub field_type: Spec,
}

impl FieldDefinition {
    /// The definition of a field named `name` of type `field_type`.
    pub fn new(name: String, field_type: Spec) -> (d: Self)
        ensures
            d.name == name,
            d.field_type == field_type,
    {
        FieldDefinition { name, field_type }
    }
}

/// The models of a list of names.
pub open spec fn names_view(v: Seq<String>) -> Seq<Seq<char>> {
    v.map_values(|s: String| s@)
}

/// The model of an optional list of names.
pub open spec fn opt_names_view(v: Option<Vec<String>>) -> Option<Seq<Seq<char>>> {
    match v {
        Some(ns) => Some(names_view(ns@)),
        None => None,
    }
}

/// The model of an optional predicate.
pub open spec fn opt_predicate_view(p: Option<Predicate>) -> Option<Seq<TermView>> {
    match p {
        Some(x) => Some(x@),
        None => None,
    }
}

/// The models of computed fields.
pub open spec fn extends_view(v: Seq<(Expression, String)>) -> Seq<(ExprView, Seq<char>)> {
    v.map_values(|x: (Expression, String)| (x.0@, x.1@))
}

/// The models of aggregates.
pub open spec fn aggs_view(v: Seq<AggregationFn>) -> Seq<AggregationView> {
    v.map_values(|a: AggregationFn| a@)
}

/// The models of values.
pub open spec fn values_view(v: Seq<Value>) -> Seq<ValueView> {
    v.map_values(|x: Value| x@)
}

/// The models of field definitions: each a name and a declared type.
pub open spec fn definitions_view(v: Seq<FieldDefinition>) -> Seq<(Seq<char>, Spec)> {
    v.map_values(|d: FieldDefinition| (d.name@, d.field_type))
}

/// The model of a query.
pub struct QueryView {
    pub fields: Option<Seq<Seq<char>>>,
    pub tables: Seq<Seq<char>>,
    pub predicate: Option<Seq<TermView>>,
    pub group_by: Option<Seq<Seq<char>>>,
    pub order_by: Option<Seq<Seq<char>>>,
    pub extend_fields: Seq<(ExprView, Seq<char>)>,
    pub aggregation_functions: Seq<AggregationView>,
}

impl View for QueryData {
    type V = QueryView;

    open spec fn view(&self) -> QueryView {
        QueryView {
            fields: opt_names_view(self.fields),
            tables: names_view(self.tables@),
            predicate: opt_predicate_view(self.predicate),
            group_by: opt_names_view(self.group_by),
            order_by: opt_names_view(self.order_by),
            extend_fields: extends_view(self.extend_fields@),
            aggregation_functions: aggs_view(self.aggregation_functions@),
        }
    }
}

/// The model of a statement that creates a table, a view or an index.
pub enum CreateCommandView {
    Table(Seq<char>, Seq<(Seq<char>, Spec)>),
    View(Seq<char>, QueryView),
    Index(Seq<char>, Seq<char>, Seq<char>),
}

impl View for CreateCommand {
    type V = CreateCommandView;

    open spec fn view(&self) -> CreateCommandView {
        match self {
            CreateCommand::Table(t, ds) => CreateCommandView::Table(t@, definitions_view(ds@)),
            CreateCommand::View(v, q) => CreateCommandView::View(v@, q@),
            CreateCommand::Index(i, t, f) => CreateCommandView::Index(i@, t@, f@),
        }
    }
}

/// The model of a statement that changes the database.
pub enum UpdateCommandView {
    Insert(Seq<char>, Seq<Seq<char>>, Seq<ValueView>),
    Delete(Seq<char>, Option<Seq<TermView>>),
    Modify(Seq<char>, Seq<char>, ExprView, Option<Seq<TermView>>),
    Create(CreateCommandView),
}

impl View for UpdateCommand {
    type V = UpdateCommandView;

    open spec fn view(&self) -> UpdateCommandView {
        match self {
            UpdateCommand::Insert(t, fs, vs) => UpdateCommandView::Insert(
                t@,
                names_view(fs@),
                values_view(vs@),
            ),
            UpdateCommand::Delete(t, p) => UpdateCommandView::Delete(t@, opt_predicate_view(*p)),
            UpdateCommand::Modify(t, f, e, p) => UpdateCommandView::Modify(
                t@,
                f@,
                e@,
                opt_predicate_view(*p),
            ),
            UpdateCommand::Create(c) => UpdateCommandView::Create(c@),
        }
    }
}

/// The model of a statement.
pub enum StatementView {
    Query(QueryView),
    UpdateCommand(UpdateCommandView),
}

impl View for Statement {
    type V = StatementView;

    open spec fn view(&self) -> StatementView {
        match self {
            Statement::Query(q) => StatementView::Query(q@),
            Statement::UpdateCommand(u) => StatementView::UpdateCommand(u@),
        }
    }
}

} // verus!
