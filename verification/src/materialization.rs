pub mod aggregation_function;
pub mod avg_function;
pub mod count_function;
pub mod group_by_scan;
pub mod max_function;
pub mod merge_join_scan;
pub mod min_function;
pub mod record_comparator;
pub mod sort_scan;
pub mod sum_function;
pub mod temp_table;
