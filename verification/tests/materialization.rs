use simpledb_rs::materialization::aggregation_function::{AggregationFn, AggregationFnControl};
use simpledb_rs::materialization::avg_function::AvgFn;
use simpledb_rs::materialization::count_function::CountFn;
use simpledb_rs::materialization::group_by_scan::GroupByScan;
use simpledb_rs::materialization::max_function::MaxFn;
use simpledb_rs::materialization::merge_join_scan::MergeJoinScan;
use simpledb_rs::materialization::min_function::MinFn;
use simpledb_rs::materialization::record_comparator::RecordComparator;
use simpledb_rs::materialization::sort_scan::SortScan;
use simpledb_rs::materialization::sum_function::SumFn;
use simpledb_rs::materialization::temp_table::{TempTable, TempTableCounter};
use simpledb_rs::record::field::Value;
use simpledb_rs::record::schema::Schema;
use simpledb_rs::scan::{Row, ScanControl};
use std::cmp::Ordering;

fn row_a_b(a: i32, b: Value) -> Row {
    let mut row = Row::new();
    row.set_value("A", Value::I32(a));
    row.set_value("B", b);
    row
}

#[test]
fn test_temp_table() {
    let mut schema = Schema::new();
    schema.add_i32_field("A");
    schema.add_string_field("B", 20);
    let mut counter = TempTableCounter::new();
    {
        let temp_table = TempTable::new(&mut counter, &schema);
        assert_eq!(temp_table.get_table_name(), "temp_0");
    }
    {
        let temp_table = TempTable::new(&mut counter, &schema);
        assert_eq!(temp_table.get_table_name(), "temp_1");
        assert_eq!(temp_table.get_schema().get_fields(), vec!["A".to_string(), "B".to_string()]);
    }
}

#[test]
fn test_sort_scan() {
    let mut schema = Schema::new();
    schema.add_i32_field("A");
    schema.add_string_field("B", 20);

    let mut counter = TempTableCounter::new();
    let mut temp_table1 = TempTable::new(&mut counter, &schema);
    let mut temp_table2 = TempTable::new(&mut counter, &schema);
    for i in 0..10 {
        let v = i * 2;
        temp_table1.insert(row_a_b(v, Value::String(v.to_string())));
    }
    for i in 0..10 {
        let v = i * 2 + 1;
        temp_table2.insert(row_a_b(v, Value::String(v.to_string())));
    }

    let mut scan = SortScan::new(
        vec![temp_table1, temp_table2],
        RecordComparator::new(&vec!["A".to_owned()]),
        &mut counter,
    );
    scan.before_first();
    for i in 0..20 {
        assert_eq!(scan.next(), true);
        assert_eq!(scan.get_value("A"), Value::I32(i));
        assert_eq!(scan.get_value("B"), Value::String(i.to_string()));
    }
    assert_eq!(scan.next(), false);
}

#[test]
fn test_group_by_scan() {
    let mut schema = Schema::new();
    schema.add_i32_field("A");
    schema.add_i32_field("B");

    let mut counter = TempTableCounter::new();
    let mut temp_table = TempTable::new(&mut counter, &schema);
    for i in 0..50 {
        temp_table.insert(row_a_b(i / 5, Value::I32(i)));
    }

    let group_fields = vec!["A".to_string()];
    let sort_scan = SortScan::new(
        vec![temp_table],
        RecordComparator::new(&group_fields),
        &mut counter,
    );
    let aggregation_functions = vec![AggregationFn::from(MaxFn::new("B"))];
    let mut group_by_scan = GroupByScan::new(sort_scan, &group_fields, &aggregation_functions);

    group_by_scan.before_first();
    for i in 0..10 {
        assert!(group_by_scan.next());
        assert_eq!(group_by_scan.get_value("A"), Value::I32(i));
        assert_eq!(group_by_scan.get_value("B"), Value::I32(i * 5 + 4));
    }
    assert!(!group_by_scan.next());
}

#[test]
fn group_by_with_every_aggregate() {
    let mut schema = Schema::new();
    schema.add_i32_field("A");
    schema.add_i32_field("B");
    let mut counter = TempTableCounter::new();
    let mut temp_table = TempTable::new(&mut counter, &schema);
    temp_table.insert(row_a_b(2, Value::I32(7)));
    temp_table.insert(row_a_b(1, Value::I32(-3)));
    temp_table.insert(row_a_b(2, Value::Null));
    temp_table.insert(row_a_b(1, Value::I32(4)));
    temp_table.insert(row_a_b(2, Value::I32(2)));
    let group_fields = vec!["A".to_string()];
    // The runs handed to a sort scan are sorted already: sort this one by hand.
    let mut sorted = TempTable::new(&mut counter, &schema);
    sorted.insert(row_a_b(1, Value::I32(-3)));
    sorted.insert(row_a_b(1, Value::I32(4)));
    sorted.insert(row_a_b(2, Value::I32(7)));
    sorted.insert(row_a_b(2, Value::Null));
    sorted.insert(row_a_b(2, Value::I32(2)));
    let sort_scan = SortScan::new(vec![sorted], RecordComparator::new(&group_fields), &mut counter);
    let aggregates = vec![
        AggregationFn::from(MinFn::new("B")),
        AggregationFn::from(SumFn::new("B")),
        AggregationFn::from(AvgFn::new("B")),
    ];
    let mut scan = GroupByScan::new(sort_scan, &group_fields, &aggregates);
    scan.before_first();
    assert!(scan.next());
    assert_eq!(scan.get_value("A"), Value::I32(1));
    assert!(scan.has_field("B"));
    assert!(!scan.has_field("C"));
    assert!(scan.next());
    assert_eq!(scan.get_value("A"), Value::I32(2));
    assert!(!scan.next());
    let _ = temp_table;
}

#[test]
fn aggregates_fold_their_values() {
    let rows = vec![
        row_a_b(0, Value::I32(5)),
        row_a_b(0, Value::Null),
        row_a_b(0, Value::I32(-2)),
        row_a_b(0, Value::I32(9)),
    ];
    let mut max = MaxFn::new("B");
    let mut min = MinFn::new("B");
    let mut sum = SumFn::new("B");
    let mut avg = AvgFn::new("B");
    let mut count = CountFn::new("B");
    max.process_first(&rows[0]);
    min.process_first(&rows[0]);
    sum.process_first(&rows[0]);
    avg.process_first(&rows[0]);
    count.process_first(&rows[0]);
    for row in &rows[1..] {
        max.process_next(row);
        min.process_next(row);
        sum.process_next(row);
        avg.process_next(row);
        count.process_next(row);
    }
    assert_eq!(max.get_value(), Some(Value::I32(9)));
    assert_eq!(min.get_value(), Some(Value::I32(-2)));
    assert_eq!(sum.get_value(), Some(Value::I32(12)));
    assert_eq!(avg.get_value(), Some(Value::I32(4)));
    assert_eq!(count.get_value(), Some(Value::I32(3)));
    assert_eq!(max.get_field_name(), "B");
    let aliased = CountFn::new("B").with_alias("n");
    assert_eq!(aliased.get_field_name(), "n");
    assert_eq!(aliased.input_field_name(), "B");
}

#[test]
fn record_comparator_orders_by_fields_in_turn() {
    let comparator = RecordComparator::new(&vec!["A".to_string(), "B".to_string()]);
    let r1 = row_a_b(1, Value::I32(5));
    let r2 = row_a_b(1, Value::I32(7));
    let r3 = row_a_b(0, Value::I32(9));
    assert_eq!(comparator.compare(&r1, &r2), Ordering::Less);
    assert_eq!(comparator.compare(&r2, &r1), Ordering::Greater);
    assert_eq!(comparator.compare(&r1, &r1), Ordering::Equal);
    assert_eq!(comparator.compare(&r3, &r1), Ordering::Less);
    assert_eq!(comparator.compare_rows(&r1, &r3), 1);
}

fn keyed_table(counter: &mut TempTableCounter, key: &str, other: &str, rows: &[(i32, &str)]) -> TempTable {
    let mut schema = Schema::new();
    schema.add_i32_field(key);
    schema.add_string_field(other, 10);
    let mut table = TempTable::new(counter, &schema);
    for (k, v) in rows {
        let mut row = Row::new();
        row.set_value(key, Value::I32(*k));
        row.set_value(other, Value::String(v.to_string()));
        table.insert(row);
    }
    table
}

fn sorted_on(counter: &mut TempTableCounter, table: TempTable, key: &str) -> SortScan {
    SortScan::new(vec![table], RecordComparator::new(&vec![key.to_string()]), counter)
}

#[test]
fn merge_join_pairs_equal_keys_in_order() {
    let mut counter = TempTableCounter::new();
    let left = keyed_table(&mut counter, "A", "X", &[(1, "a"), (2, "b"), (2, "c"), (4, "d")]);
    let right = keyed_table(&mut counter, "B", "Y", &[(2, "p"), (2, "q"), (3, "r"), (4, "s")]);
    let mut join = MergeJoinScan::new(sorted_on(&mut counter, left, "A"), sorted_on(&mut counter, right, "B"), "A", "B");
    let expected = vec![
        ("b", "p"),
        ("b", "q"),
        ("c", "p"),
        ("c", "q"),
        ("d", "s"),
    ];
    for round in 0..2 {
        join.before_first();
        for (x, y) in &expected {
            assert!(join.next(), "round {}", round);
            assert_eq!(join.get_value("X"), Value::String(x.to_string()));
            assert_eq!(join.get_value("Y"), Value::String(y.to_string()));
            assert_eq!(join.get_value("A"), join.get_value("B"));
        }
        assert!(!join.next());
        assert!(!join.next());
    }
    assert!(join.has_field("X"));
    assert!(join.has_field("B"));
    assert!(!join.has_field("Z"));
}

#[test]
fn merge_join_with_no_matches() {
    let mut counter = TempTableCounter::new();
    let left = keyed_table(&mut counter, "A", "X", &[(1, "a"), (3, "b")]);
    let right = keyed_table(&mut counter, "B", "Y", &[(2, "p"), (4, "q")]);
    let mut join = MergeJoinScan::new(sorted_on(&mut counter, left, "A"), sorted_on(&mut counter, right, "B"), "A", "B");
    assert!(!join.next());
    let left = keyed_table(&mut counter, "A", "X", &[]);
    let right = keyed_table(&mut counter, "B", "Y", &[(2, "p")]);
    let mut join = MergeJoinScan::new(sorted_on(&mut counter, left, "A"), sorted_on(&mut counter, right, "B"), "A", "B");
    assert!(!join.next());
}

#[test]
fn merge_join_with_duplicate_keys_on_both_sides() {
    let mut schema1 = Schema::new();
    schema1.add_i32_field("A");
    schema1.add_string_field("B", 20);
    let mut schema2 = Schema::new();
    schema2.add_i32_field("C");
    schema2.add_string_field("D", 20);
    let mut counter = TempTableCounter::new();
    let mut t1 = TempTable::new(&mut counter, &schema1);
    let mut t2 = TempTable::new(&mut counter, &schema2);
    for i in 0..10 {
        let mut row = Row::new();
        row.set_value("A", Value::I32(i));
        row.set_value("B", Value::String((i / 2).to_string()));
        t1.insert(row);
        let mut row = Row::new();
        row.set_value("C", Value::I32(i));
        row.set_value("D", Value::String((i / 2).to_string()));
        t2.insert(row);
    }
    let s1 = SortScan::new(vec![t1], RecordComparator::new(&vec!["B".to_string()]), &mut counter);
    let s2 = SortScan::new(vec![t2], RecordComparator::new(&vec!["D".to_string()]), &mut counter);
    let mut join = MergeJoinScan::new(s1, s2, "B", "D");

    let mut expected_values = vec![];
    for i in 0..5 {
        expected_values.push((i * 2, i.to_string(), i * 2, i.to_string()));
        expected_values.push((i * 2, i.to_string(), i * 2 + 1, i.to_string()));
        expected_values.push((i * 2 + 1, i.to_string(), i * 2, i.to_string()));
        expected_values.push((i * 2 + 1, i.to_string(), i * 2 + 1, i.to_string()));
    }
    expected_values.sort();

    let mut actual_values = vec![];
    while join.next() {
        let int = |v: Value| match v {
            Value::I32(x) => x,
            other => panic!("not an integer: {:?}", other),
        };
        let text = |v: Value| match v {
            Value::String(s) => s,
            other => panic!("not a string: {:?}", other),
        };
        let a = int(join.get_value("A"));
        let b = text(join.get_value("B"));
        let c = int(join.get_value("C"));
        let d = text(join.get_value("D"));
        actual_values.push((a, b, c, d));
    }
    let in_order = actual_values.clone();
    actual_values.sort();
    assert_eq!(expected_values, actual_values);
    assert_eq!(in_order, actual_values);
}

#[test]
fn temp_table_names_count_up_across_sort_scans() {
    let mut schema = Schema::new();
    schema.add_i32_field("A");
    let mut counter = TempTableCounter::new();
    let run = TempTable::new(&mut counter, &schema);
    assert_eq!(run.get_table_name(), "temp_0");
    // A single run is merged with an empty table, which takes a number too.
    let _scan = SortScan::new(vec![run], RecordComparator::new(&vec!["A".to_string()]), &mut counter);
    let mut names = Vec::new();
    for _ in 0..12 {
        names.push(TempTable::new(&mut counter, &schema).get_table_name().to_string());
    }
    assert_eq!(names[0], "temp_2");
    assert_eq!(names[8], "temp_10");
    assert_eq!(names[11], "temp_13");
    let mut unique = names.clone();
    unique.sort();
    unique.dedup();
    assert_eq!(unique.len(), names.len());
}

#[test]
fn max_of_only_nulls_is_nothing() {
    let rows = vec![row_a_b(0, Value::Null), row_a_b(1, Value::Null)];
    let mut max = MaxFn::new("B");
    max.process_first(&rows[0]);
    max.process_next(&rows[1]);
    assert_eq!(max.get_value(), None);
    let rows = vec![row_a_b(0, Value::Null), row_a_b(1, Value::I32(-4)), row_a_b(2, Value::I32(-9))];
    max.process_first(&rows[0]);
    max.process_next(&rows[1]);
    max.process_next(&rows[2]);
    assert_eq!(max.get_value(), Some(Value::I32(-4)));
}
