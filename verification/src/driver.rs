//! What a client learns about the columns of a result.

use vstd::prelude::*;

pub mod embedded;
pub mod remote;

use crate::record::field::Type;

verus! {

/// The columns of a result: how many there are, and each one's name, type
/// and display width.
pub trait MetadataControl {
    /// The number of columns.
    spec fn column_count(&self) -> nat;

    /// The number of columns.
    fn get_column_count(&self) -> (r: usize)
        ensures
            r == self.column_count(),
    ;

    /// The name of a column.
    fn get_column_name(&self, index: usize) -> String
        requires
            index < self.column_count(),
    ;

    /// The number of characters a column takes when printed.
    fn get_column_display_size(&self, index: usize) -> usize
        requires
            index < self.column_count(),
    ;

    /// The type of a column.
    fn get_column_type(&self, index: usize) -> Type
        requires
            index < self.column_count(),
    ;
}

} // verus!
