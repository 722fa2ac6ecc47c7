pub mod field;
pub mod schema;
