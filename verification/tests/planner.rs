use kite_sql::binder::{Binder, BinderContext, QueryBindStep};
use kite_sql::expression::ScalarExpression;
use kite_sql::optimizer::rule::{
    CreateTableImplementation, DropTableImplementation, DummyImplementation, ProjectionImplementation,
    TruncateImplementation, UpdateImplementation,
};
use kite_sql::optimizer::{Expression, GroupExpression};
use kite_sql::planner::operator::limit::LimitOperator;
use kite_sql::planner::operator::{AggregateOperator, Operator, PhysicalOption};
use kite_sql::planner::LogicalPlan;
use kite_sql::serdes::trim::{decode, encode};
use sqlparser::ast::TrimWhereField;
use kite_sql::types::value::DataValue;
use std::sync::Arc;

fn dummy() -> LogicalPlan {
    LogicalPlan::new(Operator::Dummy, vec![])
}

#[test]
fn test_limit_build() {
    let plan = LimitOperator::build(Some(5), Some(10), dummy());
    assert_eq!(plan.operator, Operator::Limit(LimitOperator { offset: Some(5), limit: Some(10) }));
    assert_eq!(plan.childrens, vec![dummy()]);
}

#[test]
fn test_limit_describe() {
    assert_eq!(LimitOperator { offset: Some(5), limit: Some(10) }.describe(), "Limit 10, Offset 5");
    assert_eq!(LimitOperator { offset: None, limit: Some(0) }.describe(), "Limit 0");
    assert_eq!(LimitOperator { offset: Some(1234567890), limit: None }.describe(), "Offset 1234567890");
    assert_eq!(LimitOperator { offset: None, limit: None }.describe(), "");
    assert_eq!(
        LimitOperator { offset: None, limit: Some(usize::MAX) }.describe(),
        format!("Limit {}", usize::MAX)
    );
}

#[test]
fn test_bind_distinct() {
    let mut binder = Binder { context: BinderContext { bind_step: QueryBindStep::From } };
    let one = ScalarExpression::Constant(Arc::new(DataValue::Int32(Some(1))));
    let plan = binder.bind_distinct(dummy(), vec![one.clone()]);
    assert_eq!(binder.context.bind_step, QueryBindStep::Distinct);
    assert_eq!(
        plan.operator,
        Operator::Aggregate(AggregateOperator { groupby_exprs: vec![one], agg_calls: vec![] })
    );
    assert_eq!(plan.childrens, vec![dummy()]);
}

#[test]
fn test_bind_show_tables() {
    let mut binder = Binder { context: BinderContext { bind_step: QueryBindStep::From } };
    let plan = binder.bind_show_tables();
    assert_eq!(plan.operator, Operator::Show);
    assert!(plan.childrens.is_empty());
    assert_eq!(binder.context.bind_step, QueryBindStep::From);
}

#[test]
fn test_implementation_rules() {
    let update = Operator::Update("t".to_string());
    let create = Operator::CreateTable("t".to_string());
    let drop = Operator::DropTable("t".to_string());
    let truncate = Operator::Truncate("t".to_string());
    let project = Operator::Project(vec![]);

    assert!(UpdateImplementation.is_match(&update));
    assert!(!UpdateImplementation.is_match(&create));
    assert!(CreateTableImplementation.is_match(&create));
    assert!(!CreateTableImplementation.is_match(&drop));
    assert!(DropTableImplementation.is_match(&drop));
    assert!(!DropTableImplementation.is_match(&truncate));
    assert!(TruncateImplementation.is_match(&truncate));
    assert!(!TruncateImplementation.is_match(&Operator::Dummy));
    assert!(DummyImplementation.is_match(&Operator::Dummy));
    assert!(!DummyImplementation.is_match(&project));
    assert!(ProjectionImplementation.is_match(&project));
    assert!(!ProjectionImplementation.is_match(&update));

    let mut group = GroupExpression { exprs: vec![] };
    UpdateImplementation.to_expression(&update, &mut group);
    CreateTableImplementation.to_expression(&create, &mut group);
    DropTableImplementation.to_expression(&drop, &mut group);
    TruncateImplementation.to_expression(&truncate, &mut group);
    DummyImplementation.to_expression(&Operator::Dummy, &mut group);
    ProjectionImplementation.to_expression(&project, &mut group);
    let options: Vec<PhysicalOption> = group.exprs.iter().map(|expr| expr.op).collect();
    assert_eq!(
        options,
        vec![
            PhysicalOption::Update,
            PhysicalOption::CreateTable,
            PhysicalOption::DropTable,
            PhysicalOption::Truncate,
            PhysicalOption::Dummy,
            PhysicalOption::Project,
        ]
    );
    assert!(group.exprs.iter().all(|expr| *expr == Expression { op: expr.op, cost: None }));
}

#[test]
fn test_trim_side_bytes() {
    assert_eq!(encode(&TrimWhereField::Both), 0);
    assert_eq!(encode(&TrimWhereField::Leading), 1);
    assert_eq!(encode(&TrimWhereField::Trailing), 2);
    for field in [TrimWhereField::Both, TrimWhereField::Leading, TrimWhereField::Trailing] {
        assert_eq!(decode(encode(&field)), Some(field));
    }
    assert_eq!(decode(3), None);
    assert_eq!(decode(255), None);
}
