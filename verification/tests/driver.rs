use std::collections::HashMap;

use simpledb_rs::driver::embedded::{EmbeddedDriver, EmbeddedMetadata};
use simpledb_rs::driver::remote::RemoteMetadata;
use simpledb_rs::driver::MetadataControl;
use simpledb_rs::record::field::Type;
use simpledb_rs::record::schema::Schema;

#[test]
fn embedded_metadata_describes_columns() {
    let mut schema = Schema::new();
    schema.add_i32_field("A");
    schema.add_string_field("longname", 5);
    schema.add_i32_field("a_very_long_name");
    schema.add_string_field("s", 30);
    let metadata = EmbeddedMetadata::new(schema);
    assert_eq!(metadata.get_column_count(), 4);
    assert_eq!(metadata.get_column_name(0), "A");
    assert_eq!(metadata.get_column_type(0), Type::I32);
    assert_eq!(metadata.get_column_display_size(0), 12);
    assert_eq!(metadata.get_column_type(1), Type::String);
    assert_eq!(metadata.get_column_display_size(1), 8);
    assert_eq!(metadata.get_column_display_size(2), 16);
    assert_eq!(metadata.get_column_display_size(3), 30);
    let _driver = EmbeddedDriver::new();
}

#[test]
fn remote_metadata_answers_by_result_id() {
    let mut first = Schema::new();
    first.add_i32_field("A");
    first.add_string_field("B", 20);
    let mut second = Schema::new();
    second.add_string_field("name", 2);
    let mut dict = HashMap::new();
    dict.insert(7u64, EmbeddedMetadata::new(first));
    dict.insert(9u64, EmbeddedMetadata::new(second));
    let remote = RemoteMetadata::new(dict);
    assert!(remote.has_result_set(7));
    assert!(remote.has_result_set(9));
    assert!(!remote.has_result_set(8));
    assert_eq!(remote.get_column_count(7), 2);
    assert_eq!(remote.get_column_count(9), 1);
    assert_eq!(remote.get_column_name(7, 1), "B");
    assert_eq!(remote.get_column_name(9, 0), "name");
    assert_eq!(remote.get_column_display_size(7, 0), 12);
    assert_eq!(remote.get_column_display_size(7, 1), 20);
    assert_eq!(remote.get_column_display_size(9, 0), 4);
    assert_eq!(remote.get_column_type(7, 0), 0);
    assert_eq!(remote.get_column_type(7, 1), 1);
}
