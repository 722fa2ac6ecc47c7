//! The server side of the metadata service: the columns of the results that
//! remote clients hold, looked up by the identifier each result was given.

use std::collections::HashMap;
use vstd::prelude::*;

use crate::driver::embedded::{column_type, display_size, EmbeddedMetadata};
use crate::driver::MetadataControl;
use crate::record::field::type_code;
use crate::record::schema::field_spec;

verus! {

broadcast use vstd::std_specs::hash::group_hash_axioms;

/// The metadata of every open remote result, by its identifier.
pub struct RemoteMetadata {
    embedded_metadata_dict: HashMap<u64, EmbeddedMetadata>,
}

impl RemoteMetadata {
    /// The metadata held, by result identifier.
    pub closed spec fn dict(&self) -> Map<u64, EmbeddedMetadata> {
        self.embedded_metadata_dict@
    }

    /// A service over that table of metadata.
    pub fn new(embedded_metadata_dict: HashMap<u64, EmbeddedMetadata>) -> (r: Self)
        ensures
            r.dict() == embedded_metadata_dict@,
    {
        RemoteMetadata { embedded_metadata_dict }
    }

    /// Whether a result with that identifier is known.
    pub fn has_result_set(&self, result_set_id: u64) -> (r: bool)
        ensures
            r == self.dict().contains_key(result_set_id),
    {
        self.embedded_metadata_dict.contains_key(&result_set_id)
    }

    fn metadata(&self, result_set_id: u64) -> (m: &EmbeddedMetadata)
        requires
            self.dict().contains_key(result_set_id),
        ensures
            *m == self.dict()[result_set_id],
    {
        self.embedded_metadata_dict.get(&result_set_id).unwrap()
    }

    /// The number of columns of a known result.
    pub fn get_column_count(&self, result_set_id: u64) -> (r: u64)
        requires
            self.dict().contains_key(result_set_id),
        ensures
            r == self.dict()[result_set_id].column_count(),
    {
        let m = self.metadata(result_set_id);
        m.get_column_count() as u64
    }

    /// The name of a column of a known result.
    pub fn get_column_name(&self, result_set_id: u64, index: u64) -> (r: String)
        requires
            self.dict().contains_key(result_set_id),
            index < self.dict()[result_set_id].column_count(),
        ensures
            r@ == self.dict()[result_set_id].schema_view()[index as int].0,
    {
        let m = self.metadata(result_set_id);
        let _n = m.get_column_count();
        m.get_column_name(index as usize)
    }

    /// The display width of a column of a known result.
    pub fn get_column_display_size(&self, result_set_id: u64, index: u64) -> (r: u64)
        requires
            self.dict().contains_key(result_set_id),
            index < self.dict()[result_set_id].column_count(),
        ensures
            ({
                let v = self.dict()[result_set_id].schema_view();
                r == display_size(field_spec(v, v[index as int].0), v[index as int].0)
            }),
    {
        let m = self.metadata(result_set_id);
        let _n = m.get_column_count();
        m.get_column_display_size(index as usize) as u64
    }

    /// The type code of a column of a known result: 0 for an integer, 1 for
    /// a string.
    pub fn get_column_type(&self, result_set_id: u64, index: u64) -> (r: i32)
        requires
            self.dict().contains_key(result_set_id),
            index < self.dict()[result_set_id].column_count(),
        ensures
            r == type_code(column_type(self.dict()[result_set_id].schema_view(), index as int)),
    {
        let m = self.metadata(result_set_id);
        let _n = m.get_column_count();
        m.get_column_type(index as usize).to_code()
    }
}

} // verus!
