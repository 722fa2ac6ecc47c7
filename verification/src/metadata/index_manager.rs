//! What the planner knows of an index on a field of a table: the records an
//! index entry holds, and the statistics a lookup through it is estimated by.

use vstd::prelude::*;

use crate::bytes::str_eq;
use crate::metadata::stat_manager::{estimated_distinct, StatInfo};
use crate::record::field::Spec;
use crate::record::schema::{field_spec, schema_has, with_field, Schema, SchemaView};

verus! {

/// The fields of an index record: the block and slot of the indexed record,
/// then the indexed value, declared as the indexed field is.
pub open spec fn index_schema_view(value_spec: Spec) -> SchemaView {
    with_field(
        with_field(
            with_field(Seq::empty(), "block_slot"@, Spec::I32),
            "record_slot"@,
            Spec::I32,
        ),
        "data_value"@,
        value_spec,
    )
}

/// The schema of the records of an index on the field `field_name` of a
/// table with schema `table_schema`.
pub fn create_index_schema(table_schema: &Schema, field_name: &str) -> (r: Schema)
    requires
        schema_has(table_schema@, field_name@),
    ensures
        r@ == index_schema_view(field_spec(table_schema@, field_name@)),
{
    let mut schema = Schema::new();
    schema.add_i32_field("block_slot");
    schema.add_i32_field("record_slot");
    match table_schema.get_field_spec(field_name) {
        Spec::I32 => schema.add_i32_field("data_value"),
        Spec::VarChar(len) => schema.add_string_field("data_value", len),
    }
    schema
}

/// An index on one field of a table, with the statistics of that table.
pub struct IndexInfo {
    index_name: String,
    field_name: String,
    index_schema: Schema,
    stat_info: StatInfo,
}

impl IndexInfo {
    /// The name of the index.
    pub closed spec fn name(&self) -> Seq<char> {
        self.index_name@
    }

    /// The name of the indexed field.
    pub closed spec fn field(&self) -> Seq<char> {
        self.field_name@
    }

    /// The fields of the index's records.
    pub closed spec fn schema_view(&self) -> SchemaView {
        self.index_schema@
    }

    /// The statistics of the indexed table: its blocks and records.
    pub closed spec fn stats(&self) -> (usize, usize) {
        self.stat_info@
    }

    /// The index `index_name` on the field `field_name` of a table with
    /// schema `table_schema` and statistics `stat_info`.
    pub fn new(index_name: String, field_name: String, table_schema: &Schema, stat_info: StatInfo) -> (r: Self)
        requires
            schema_has(table_schema@, field_name@),
        ensures
            r.name() == index_name@,
            r.field() == field_name@,
            r.schema_view() == index_schema_view(field_spec(table_schema@, field_name@)),
            r.stats() == stat_info@,
    {
        let index_schema = create_index_schema(table_schema, field_name.as_str());
        IndexInfo { index_name, field_name, index_schema, stat_info }
    }

    /// The name of the index.
    pub fn get_index_name(&self) -> (r: &str)
        ensures
            r@ == self.name(),
    {
        self.index_name.as_str()
    }

    /// The schema of the index's records.
    pub fn get_index_schema(&self) -> (r: &Schema)
        ensures
            r@ == self.schema_view(),
    {
        &self.index_schema
    }

    /// The estimated number of records a lookup of one value finds: the
    /// table's records divided by the distinct values of the indexed field.
    pub fn get_num_records(&self) -> (r: usize)
        ensures
            r == self.stats().1 / estimated_distinct(self.stats().1),
    {
        self.stat_info.get_num_records() / self.stat_info.get_distinct_values(self.field_name.as_str())
    }

    /// The estimated number of distinct values of a field among the records a
    /// lookup finds: one for the indexed field, else as in the table.
    pub fn get_distinct_values(&self, field_name: &str) -> (r: usize)
        ensures
            r == if field_name@ == self.field() {
                1
            } else {
                estimated_distinct(self.stats().1)
            },
    {
        if str_eq(field_name, self.field_name.as_str()) {
            1
        } else {
            self.stat_info.get_distinct_values(field_name)
        }
    }
}

} // verus!
