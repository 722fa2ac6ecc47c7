use vstd::prelude::*;

use crate::display::byte_len;
use crate::driver::MetadataControl;
use crate::record::field::{spec_type_of, Spec, Type};
use crate::record::schema::{field_spec, Schema, SchemaView};

verus! {

/// The width an integer column takes at least.
pub const INTEGER_DISPLAY_WIDTH: usize = 12;

/// The display width of a column: twelve for an integer, the declared
/// length for a string, and never less than the name's length.
pub open spec fn display_size(spec: Spec, name: Seq<char>) -> int {
    let n = byte_len(name) as int;
    let size = match spec {
        Spec::I32 => 12,
        Spec::VarChar(k) => k as int,
    };
    if n > size {
        n
    } else {
        size
    }
}

/// The type of the column at `index`: that of the first field of its name.
pub open spec fn column_type(v: SchemaView, index: int) -> Type {
    spec_type_of(field_spec(v, v[index].0))
}

/// The columns of a result of the embedded engine, read off its schema.
pub struct EmbeddedMetadata {
    schema: Schema,
}

impl EmbeddedMetadata {
    /// The columns of a result with that schema.
    pub fn new(schema: Schema) -> (r: Self)
        ensures
            r.schema_view() == schema@,
    {
        EmbeddedMetadata { schema }
    }

    /// The schema the columns are read from.
    pub closed spec fn schema_view(&self) -> SchemaView {
        self.schema@
    }
}

impl MetadataControl for EmbeddedMetadata {
    open spec fn column_count(&self) -> nat {
        self.schema_view().len()
    }

    fn get_column_count(&self) -> (r: usize)
        ensures
            r == self.schema_view().len(),
    {
        self.schema.get_fields().len()
    }

    fn get_column_name(&self, index: usize) -> (r: String)
        ensures
            r@ == self.schema_view()[index as int].0,
    {
        let fields = self.schema.get_fields();
        fields[index].clone()
    }

    fn get_column_display_size(&self, index: usize) -> (r: usize)
        ensures
            r == display_size(
                field_spec(self.schema_view(), self.schema_view()[index as int].0),
                self.schema_view()[index as int].0,
            ),
    {
        let name = self.get_column_name(index);
        let n = name.as_str().len();
        proof {
            assert(crate::record::schema::schema_has(self.schema@, name@)) by {
                assert(self.schema@[index as int].0 == name@);
            }
        }
        let size = match self.schema.get_field_spec(name.as_str()) {
            Spec::I32 => INTEGER_DISPLAY_WIDTH,
            Spec::VarChar(k) => k,
        };
        if n > size {
            n
        } else {
            size
        }
    }

    fn get_column_type(&self, index: usize) -> (r: Type)
        ensures
            r == column_type(self.schema_view(), index as int),
    {
        let name = self.get_column_name(index);
        proof {
            assert(crate::record::schema::schema_has(self.schema@, name@)) by {
                assert(self.schema@[index as int].0 == name@);
            }
        }
        self.schema.get_field_type(name.as_str())
    }
}

/// The driver that runs the engine in the client's own process.
pub struct EmbeddedDriver {}

impl EmbeddedDriver {
    /// A driver.
    pub fn new() -> (r: Self)
        ensures
            r == (EmbeddedDriver {}),
    {
        EmbeddedDriver {}
    }
}

} // verus!
