use simpledb_rs::materialization::aggregation_function::AggregationFn;
use simpledb_rs::materialization::sum_function::SumFn;
use simpledb_rs::parser::expression::Expression;
use simpledb_rs::parser::grammar;
use simpledb_rs::parser::grammar::ParseError;
use simpledb_rs::parser::predicate::{Predicate, Term};
use simpledb_rs::parser::statement::{
    CreateCommand, FieldDefinition, QueryData, Statement, UpdateCommand,
};
use simpledb_rs::record::field::{Spec, Value};

#[test]
fn test_predicate() {
    assert_eq!(
        grammar::TermParser::new().parse("333 = 222").unwrap(),
        Term::Equality(Expression::I32Constant(333), Expression::I32Constant(222))
    );
    assert_eq!(
        grammar::PredicateParser::new()
            .parse("col = 222 AND string = '222'")
            .unwrap(),
        Predicate::new(vec![
            Term::Equality(
                Expression::Field("col".to_string()),
                Expression::I32Constant(222)
            ),
            Term::Equality(
                Expression::Field("string".to_string()),
                Expression::StringConstant("222".to_string())
            ),
        ])
    );

    assert_eq!(
        grammar::TermParser::new().parse("NULL = NULL").unwrap(),
        Term::Equality(Expression::NullConstant, Expression::NullConstant)
    );

    assert_eq!(
        grammar::TermParser::new().parse("f IS NULL").unwrap(),
        Term::IsNull(Expression::Field("f".to_string()))
    );
}

#[test]
fn test_expression_arithmetic() {
    assert_eq!(
        grammar::TermParser::new().parse("1 + 2 * 3 = 7").unwrap(),
        Term::Equality(
            Expression::Add(
                Box::new(Expression::I32Constant(1)),
                Box::new(Expression::Mul(
                    Box::new(Expression::I32Constant(2)),
                    Box::new(Expression::I32Constant(3)),
                )),
            ),
            Expression::I32Constant(7),
        )
    );

    assert_eq!(
        grammar::TermParser::new().parse("(a + 1) / b = 3").unwrap(),
        Term::Equality(
            Expression::Div(
                Box::new(Expression::Add(
                    Box::new(Expression::Field("a".to_string())),
                    Box::new(Expression::I32Constant(1)),
                )),
                Box::new(Expression::Field("b".to_string())),
            ),
            Expression::I32Constant(3),
        )
    );
}

#[test]
fn test_insert() {
    assert_eq!(
        grammar::StatementParser::new()
            .parse("INSERT INTO mytable (aaa, bbb) VALUES (333, '222')")
            .unwrap(),
        Statement::UpdateCommand(UpdateCommand::Insert(
            "mytable".to_string(),
            vec!["aaa".to_string(), "bbb".to_string()],
            vec![Value::I32(333), Value::String("222".to_string())]
        ))
    );
}

#[test]
fn test_delete() {
    assert_eq!(
        grammar::StatementParser::new()
            .parse("DELETE FROM mytable")
            .unwrap(),
        Statement::UpdateCommand(UpdateCommand::Delete("mytable".to_string(), None))
    );

    assert_eq!(
        grammar::StatementParser::new()
            .parse("DELETE FROM mytable WHERE col = 222")
            .unwrap(),
        Statement::UpdateCommand(UpdateCommand::Delete(
            "mytable".to_string(),
            Some(Predicate::new(vec![Term::Equality(
                Expression::Field("col".to_string()),
                Expression::I32Constant(222)
            )]))
        ))
    );
}

#[test]
fn test_modify() {
    assert_eq!(
        grammar::StatementParser::new()
            .parse("MODIFY mytable SET aaa = 333")
            .unwrap(),
        Statement::UpdateCommand(UpdateCommand::Modify(
            "mytable".to_string(),
            "aaa".to_string(),
            Expression::I32Constant(333),
            None
        ))
    );

    assert_eq!(
        grammar::StatementParser::new()
            .parse("MODIFY mytable SET aaa = 333 WHERE col = 222")
            .unwrap(),
        Statement::UpdateCommand(UpdateCommand::Modify(
            "mytable".to_string(),
            "aaa".to_string(),
            Expression::I32Constant(333),
            Some(Predicate::new(vec![Term::Equality(
                Expression::Field("col".to_string()),
                Expression::I32Constant(222)
            )]))
        ))
    );
}

#[test]
fn test_create_index() {
    assert_eq!(
        grammar::StatementParser::new()
            .parse("CREATE INDEX index_name ON table_name (field_name)")
            .unwrap(),
        Statement::UpdateCommand(UpdateCommand::Create(CreateCommand::Index(
            "index_name".to_string(),
            "table_name".to_string(),
            "field_name".to_string()
        )))
    );
}

#[test]
fn test_create_view() {
    assert_eq!(
        grammar::StatementParser::new()
            .parse("CREATE VIEW view_name AS SELECT aaa, bbb FROM table_name WHERE col = 222")
            .unwrap(),
        Statement::UpdateCommand(UpdateCommand::Create(CreateCommand::View(
            "view_name".to_string(),
            QueryData::new(
                vec!["aaa".to_string(), "bbb".to_string()],
                vec!["table_name".to_string()],
                Some(Predicate::new(vec![Term::Equality(
                    Expression::Field("col".to_string()),
                    Expression::I32Constant(222)
                )]))
            )
        )))
    );
}

#[test]
fn test_create_table() {
    assert_eq!(
        grammar::StatementParser::new()
            .parse("CREATE TABLE table_name (aaa I32, bbb VARCHAR(20))")
            .unwrap(),
        Statement::UpdateCommand(UpdateCommand::Create(CreateCommand::Table(
            "table_name".to_string(),
            vec![
                FieldDefinition::new("aaa".to_string(), Spec::I32),
                FieldDefinition::new("bbb".to_string(), Spec::VarChar(20))
            ]
        )))
    );
}

#[test]
fn test_select_all() {
    assert_eq!(
        grammar::StatementParser::new()
            .parse("SELECT * FROM mytable")
            .unwrap(),
        Statement::Query(QueryData::new_all(vec!["mytable".to_string()], None))
    );
}

#[test]
fn test_select_order_by() {
    assert_eq!(
        grammar::StatementParser::new()
            .parse("SELECT * FROM mytable ORDER BY col")
            .unwrap(),
        Statement::Query(QueryData::new_all_with_order(
            vec!["mytable".to_string()],
            None,
            Some(vec!["col".to_string()]),
        ))
    );
}

#[test]
fn test_select_as_alias() {
    assert_eq!(
        grammar::StatementParser::new()
            .parse("SELECT col AS alias FROM tbl")
            .unwrap(),
        Statement::Query(QueryData::new_with_order_and_extend(
            vec!["alias".to_string()],
            vec!["tbl".to_string()],
            None,
            None,
            vec![(Expression::Field("col".to_string()), "alias".to_string())],
        ))
    );
}

#[test]
fn test_select_expression_as_alias() {
    assert_eq!(
        grammar::StatementParser::new()
            .parse("SELECT a + 1 AS b FROM tbl")
            .unwrap(),
        Statement::Query(QueryData::new_with_order_and_extend(
            vec!["b".to_string()],
            vec!["tbl".to_string()],
            None,
            None,
            vec![(
                Expression::Add(
                    Box::new(Expression::Field("a".to_string())),
                    Box::new(Expression::I32Constant(1)),
                ),
                "b".to_string(),
            ),],
        ))
    );
}

#[test]
fn test_select_aggregation_as_alias() {
    assert_eq!(
        grammar::StatementParser::new()
            .parse("SELECT SUM(val) AS total FROM t GROUP BY val")
            .unwrap(),
        Statement::Query(QueryData::new_full(
            Some(vec!["total".to_string()]),
            vec!["t".to_string()],
            None,
            Some(vec!["val".to_string()]),
            None,
            vec![(Expression::Field("val".to_string()), "total".to_string())],
            vec![AggregationFn::from(SumFn::new("val"))],
        ))
    );
}

#[test]
fn statement_keywords_in_any_case() {
    assert_eq!(
        grammar::StatementParser::new()
            .parse("select fldname, type, length from fldcat where tblname = 'T1'")
            .unwrap(),
        Statement::Query(QueryData::new(
            vec!["fldname".to_string(), "type".to_string(), "length".to_string()],
            vec!["fldcat".to_string()],
            Some(Predicate::new(vec![Term::Equality(
                Expression::Field("tblname".to_string()),
                Expression::StringConstant("T1".to_string())
            )]))
        ))
    );
    assert_eq!(
        grammar::StatementParser::new()
            .parse("insert into test (A, B) values (2, NULL)")
            .unwrap(),
        Statement::UpdateCommand(UpdateCommand::Insert(
            "test".to_string(),
            vec!["A".to_string(), "B".to_string()],
            vec![Value::I32(2), Value::Null]
        ))
    );
}

#[test]
fn statement_negative_constant() {
    assert_eq!(
        grammar::StatementParser::new()
            .parse("INSERT INTO t (a) VALUES (-5)")
            .unwrap(),
        Statement::UpdateCommand(UpdateCommand::Insert(
            "t".to_string(),
            vec!["a".to_string()],
            vec![Value::I32(-5)]
        ))
    );
}

#[test]
fn statement_errors() {
    assert_eq!(
        grammar::StatementParser::new().parse("SELECT a FROM t extra"),
        Err(ParseError::UnrecognizedToken)
    );
    assert_eq!(
        grammar::StatementParser::new().parse("SELECT a FROM t WHERE b = 'x"),
        Err(ParseError::InvalidToken)
    );
    assert_eq!(
        grammar::StatementParser::new().parse("SELECT a + 1 FROM t"),
        Err(ParseError::UnrecognizedToken)
    );
    assert_eq!(
        grammar::StatementParser::new().parse("DROP TABLE t"),
        Err(ParseError::UnrecognizedToken)
    );
}

#[test]
fn statement_count_and_grouping() {
    assert_eq!(
        grammar::StatementParser::new()
            .parse("SELECT dept, COUNT(id) FROM emp GROUP BY dept ORDER BY dept")
            .unwrap(),
        Statement::Query(QueryData::new_full(
            Some(vec!["dept".to_string(), "id".to_string()]),
            vec!["emp".to_string()],
            None,
            Some(vec!["dept".to_string()]),
            Some(vec!["dept".to_string()]),
            vec![],
            vec![AggregationFn::from(
                simpledb_rs::materialization::count_function::CountFn::new("id")
            )],
        ))
    );
}

#[test]
fn readme_statements_parse() {
    let parser = grammar::StatementParser::new();
    assert!(matches!(
        parser.parse("select * from STUDENT"),
        Ok(Statement::Query(_))
    ));
    let joined = parser
        .parse(
            "select SName, DName, Grade, YearOffered from STUDENT, DEPT, ENROLL, SECTION \
             where SId = StudentId and SectId = SectionId and DId = MajorId and YearOffered = 2018",
        )
        .unwrap();
    match joined {
        Statement::Query(q) => {
            assert_eq!(q.tables.len(), 4);
            assert_eq!(q.predicate.unwrap().terms().len(), 4);
            assert_eq!(q.fields.unwrap().len(), 4);
        }
        _ => panic!("expected a query"),
    }
    assert_eq!(
        parser
            .parse("MODIFY ENROLL SET Grade = 'A+' WHERE StudentId = 6")
            .unwrap(),
        Statement::UpdateCommand(UpdateCommand::Modify(
            "ENROLL".to_string(),
            "Grade".to_string(),
            Expression::StringConstant("A+".to_string()),
            Some(Predicate::new(vec![Term::Equality(
                Expression::Field("StudentId".to_string()),
                Expression::I32Constant(6)
            )]))
        ))
    );
    assert!(matches!(
        parser.parse("DELETE FROM STUDENT WHERE SName = 'joe'"),
        Ok(Statement::UpdateCommand(UpdateCommand::Delete(_, Some(_))))
    ));
    assert!(matches!(
        parser.parse("create table STUDENT(SId I32, SName VARCHAR(10), MajorId I32, GradYear I32)"),
        Ok(Statement::UpdateCommand(UpdateCommand::Create(CreateCommand::Table(_, _))))
    ));
}
