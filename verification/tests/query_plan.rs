use ormada::query::{
    soft_delete_filter, Aggregation, FilterExpr, FilterOp, OrderDirection, QueryOp, QueryPlan, SoftDeleteMode,
};
use ormada::traits::SoftDeleteConfig;

#[test]
fn plan_introspection() {
    let mut plan = QueryPlan::new();
    assert!(plan.is_empty());
    plan.push(QueryOp::filter(FilterExpr::lt("Price", "50")));
    plan.push(QueryOp::exclude(FilterExpr::is_null("Title")));
    plan.push(QueryOp::order_desc("CreatedAt"));
    plan.push(QueryOp::limit(10));
    plan.push(QueryOp::offset(20));
    plan.push(QueryOp::limit(5));
    plan.push(QueryOp::SoftDelete(SoftDeleteMode::IncludeDeleted));
    assert_eq!(plan.len(), 7);
    assert!(plan.has_filters() && plan.has_ordering() && plan.has_limit());
    assert_eq!(plan.get_limit(), Some(10));
    assert_eq!(plan.get_offset(), Some(20));
    let filters = plan.filters();
    assert_eq!(filters.len(), 1);
    assert_eq!(filters[0].get_column(), Some("Price"));
    assert_eq!(filters[0].get_op(), Some(&FilterOp::Lt));
    assert_eq!(filters[0].get_value_repr(), Some("50"));
    assert!(matches!(plan.operations()[2], QueryOp::OrderBy { direction: OrderDirection::Desc, .. }));
}

#[test]
fn empty_plan_reports_nothing() {
    let mut plan = QueryPlan::default();
    plan.push(QueryOp::distinct());
    assert!(!plan.has_filters() && !plan.has_ordering() && !plan.has_limit());
    assert_eq!(plan.get_limit(), None);
    assert_eq!(plan.get_offset(), None);
    assert!(plan.filters().is_empty());
    assert!(plan.operations()[0].is_distinct());
}

#[test]
fn filter_expressions() {
    let e = FilterExpr::and(vec![FilterExpr::eq("Published", "true"), FilterExpr::gte("Price", "10")]);
    assert!(e.is_and() && !e.is_typed());
    assert_eq!(e.get_column(), None);
    let n = FilterExpr::is_not_null("DeletedAt").not();
    assert!(n.is_not());
    let t = FilterExpr::is_not_null("DeletedAt");
    assert_eq!(t.get_value_repr(), Some("NOT NULL"));
    assert_eq!(t.get_op(), Some(&FilterOp::IsNotNull));
    assert!(FilterExpr::raw("price > 5").is_raw());
    assert!(FilterExpr::or(vec![]).is_or());
}

#[test]
fn aggregations_name_columns() {
    assert_eq!(Aggregation::count_all(), Aggregation::CountAll);
    assert_eq!(Aggregation::sum("Price"), Aggregation::Sum("Price".to_string()));
    assert_eq!(Aggregation::max("Price"), Aggregation::Max("Price".to_string()));
    let op = QueryOp::Annotate { alias: "total".to_string(), aggregation: Aggregation::count("Id") };
    assert!(!op.is_filter());
    assert!(QueryOp::group_by("Author").is_order_by() == false);
}

#[test]
fn soft_delete_mode_filters() {
    let cfg = SoftDeleteConfig::Enabled { column: "deleted_at" };
    let ex = soft_delete_filter(&cfg, SoftDeleteMode::ExcludeDeleted).unwrap();
    assert_eq!(ex.get_column(), Some("deleted_at"));
    assert_eq!(ex.get_op(), Some(&FilterOp::IsNull));
    let only = soft_delete_filter(&cfg, SoftDeleteMode::OnlyDeleted).unwrap();
    assert_eq!(only.get_op(), Some(&FilterOp::IsNotNull));
    assert!(soft_delete_filter(&cfg, SoftDeleteMode::IncludeDeleted).is_none());
    assert!(soft_delete_filter(&SoftDeleteConfig::Disabled, SoftDeleteMode::OnlyDeleted).is_none());
}
