use simpledb_rs::file::{block_position, last_block, num_blocks_in, BlockId};
use simpledb_rs::errors::{ExecutionError, QueryError, TransactionError};
use simpledb_rs::log::record::LogRecord;
use simpledb_rs::parser::grammar::ParseError;
use simpledb_rs::metadata::stat_manager::StatInfo;
use simpledb_rs::parser::expression::Expression;
use simpledb_rs::parser::predicate::{Predicate, Term};
use simpledb_rs::plan::PlanControl;
use simpledb_rs::record::field::{Spec, Type, Value};
use simpledb_rs::record::schema::Schema;
use simpledb_rs::scan::Row;

#[test]
fn block_ids_round_trip_through_bytes() {
    let block = BlockId::new("tbl", 7);
    let mut bytes = block.to_bytes();
    assert_eq!(bytes.len(), 16 + 3);
    bytes.extend_from_slice(&[1, 2, 3]);
    let (n, back) = BlockId::from_bytes(&bytes);
    assert_eq!(n, 19);
    assert_eq!(back, block);
    assert_eq!(block.get_previous_block(), Some(BlockId::new("tbl", 6)));
    assert_eq!(BlockId::new("tbl", 0).get_previous_block(), None);
    assert!(block.same_block(&BlockId::new("tbl", 7)));
    assert!(!block.same_block(&BlockId::new("tbm", 7)));
}

#[test]
fn log_records_round_trip_through_bytes() {
    let records = vec![
        LogRecord::Start(1),
        LogRecord::Commit(2),
        LogRecord::Checkpoint(3),
        LogRecord::Rollback(4),
        LogRecord::SetI32(5, BlockId::new("f", 1), 12, -1, 99),
        LogRecord::SetString(6, BlockId::new("g", 2), 8, "ä".to_string(), "".to_string()),
    ];
    for record in records {
        let mut bytes = record.to_bytes();
        let len = bytes.len();
        bytes.push(0xff);
        let back = LogRecord::from_bytes(&bytes);
        assert_eq!(back, record);
        assert_eq!(back.to_bytes().len(), len);
    }
    assert_eq!(LogRecord::Start(1).to_bytes().len(), 9);
    assert_eq!(LogRecord::SetI32(3, BlockId::new("f", 1), 0, 0, 0).get_transaction_id(), 3);
}

#[test]
fn field_types_and_values() {
    assert_eq!(Type::I32.to_code(), 0);
    assert_eq!(Type::String.to_code(), 1);
    assert_eq!(Type::from_code(1), Some(Type::String));
    assert_eq!(Type::from_code(5), None);
    assert_eq!(Spec::VarChar(3).get_type(), Type::String);
    assert_eq!(Value::I32(3).compare_to(&Value::I32(4)), -1);
    assert_eq!(Value::Null.compare_to(&Value::I32(4)), -1);
    assert_eq!(Value::String("b".into()).compare_to(&Value::String("a".into())), 1);
    assert_eq!(Value::String("a".into()).compare_to(&Value::I32(100)), 1);
    assert!(Value::Null.is_null());
    assert!(Value::I32(2).equals(&Value::I32(2)));
    assert!(!Value::I32(2).equals(&Value::String("2".into())));
}

#[test]
fn schemas_keep_the_first_definition() {
    let mut schema = Schema::new();
    schema.add_i32_field("A");
    schema.add_string_field("B", 10);
    schema.add_string_field("A", 5);
    assert_eq!(schema.get_fields(), vec!["A".to_string(), "B".to_string()]);
    assert_eq!(schema.get_field_spec("A"), Spec::I32);
    assert_eq!(schema.get_field_type("B"), Type::String);
    assert!(schema.has_field("B"));
    assert!(!schema.has_field("C"));
    let mut other = Schema::new();
    other.add_i32_field("C");
    other.add_i32_field("B");
    schema.add_all(&other);
    assert_eq!(
        schema.get_fields(),
        vec!["A".to_string(), "B".to_string(), "C".to_string()]
    );
}

#[test]
fn expressions_evaluate_on_rows() {
    let mut row = Row::new();
    row.set_value("a", Value::I32(-7));
    row.set_value("b", Value::I32(2));
    row.set_value("n", Value::Null);
    let div = Expression::Div(
        Box::new(Expression::Field("a".into())),
        Box::new(Expression::Field("b".into())),
    );
    assert_eq!(div.evaluate(&row), Value::I32(-3));
    let by_zero = Expression::Div(
        Box::new(Expression::I32Constant(1)),
        Box::new(Expression::I32Constant(0)),
    );
    assert_eq!(by_zero.evaluate(&row), Value::Null);
    let with_null = Expression::Add(
        Box::new(Expression::Field("n".into())),
        Box::new(Expression::I32Constant(1)),
    );
    assert_eq!(with_null.evaluate(&row), Value::Null);
    assert_eq!(Expression::Field("a".into()).try_get_field(), Some("a"));
    assert_eq!(Expression::I32Constant(4).try_get_constant(), Some(Value::I32(4)));
    assert_eq!(by_zero.try_get_constant(), Some(Value::Null));
}

#[test]
fn predicates_select_rows_and_estimate() {
    let mut row = Row::new();
    row.set_value("a", Value::I32(3));
    row.set_value("s", Value::String("x".into()));
    let term = Term::Equality(Expression::Field("a".into()), Expression::I32Constant(3));
    assert!(term.is_satisfied(&row));
    let is_null = Term::IsNull(Expression::Field("s".into()));
    assert!(!is_null.is_satisfied(&row));
    let predicate = Predicate::new(vec![term.duplicate(), is_null]);
    assert!(!predicate.is_satisfied(&row));
    assert_eq!(predicate.equates_with_constant("a"), Some(Value::I32(3)));
    assert_eq!(predicate.equates_with_field("a"), None);
    let stats = StatInfo::new(10, 300);
    assert_eq!(stats.get_num_blocks(), 10);
    assert_eq!(stats.get_num_records(), 300);
    assert_eq!(stats.get_distinct_values("a"), 101);
    assert_eq!(stats.num_distinct_values("a"), 101);
    assert_eq!(term.get_reduction_factor(&stats), 101);
    let mut schema = Schema::new();
    schema.add_i32_field("a");
    assert!(term.is_applied_to(&schema));
    assert_eq!(
        Predicate::new(vec![term.duplicate()]).select_sub_predicates(&schema),
        Some(Predicate::new(vec![term]))
    );
}

#[test]
fn file_positions_and_block_counts() {
    assert_eq!(block_position(&BlockId::new("f", 3), 256), Some(768));
    assert_eq!(block_position(&BlockId::new("f", usize::MAX), 256), None);
    assert_eq!(num_blocks_in(1000, 256), 3);
    assert_eq!(num_blocks_in(0, 256), 0);
    assert_eq!(last_block("f", 3), BlockId::new("f", 2));
}

#[test]
fn errors_convert_into_wider_errors() {
    use_errors();
}

fn use_errors() {
    let q = QueryError::from(ParseError::UnrecognizedToken);
    assert_eq!(q, QueryError::ParseError(ParseError::UnrecognizedToken));
    assert_eq!(
        ExecutionError::from(q.clone()),
        ExecutionError::QueryError(q)
    );
    assert_eq!(
        ExecutionError::from(TransactionError::TooSmallBlockError(4, 9)),
        ExecutionError::TransactionError(TransactionError::TooSmallBlockError(4, 9))
    );
}

#[test]
fn predicate_estimate_multiplies_over_its_terms() {
    let stats = StatInfo::new(10, 300);
    let t1 = Term::Equality(Expression::Field("a".into()), Expression::I32Constant(3));
    let t2 = Term::Equality(Expression::I32Constant(1), Expression::I32Constant(2));
    let t3 = Term::Equality(Expression::I32Constant(5), Expression::I32Constant(5));
    assert_eq!(Predicate::new(vec![]).get_reduction_factor(&stats), 1);
    let left = Predicate::new(vec![t1.duplicate()]);
    let right = Predicate::new(vec![t2.duplicate(), t3.duplicate()]);
    let both = Predicate::new(vec![t1, t2, t3]);
    assert_eq!(left.get_reduction_factor(&stats), 101);
    assert_eq!(right.get_reduction_factor(&stats), 100);
    assert_eq!(
        both.get_reduction_factor(&stats),
        left.get_reduction_factor(&stats) * right.get_reduction_factor(&stats)
    );
}
