use ormada::query::{
    FilterOp, Filtered, Fresh, OrderDirection, QueryState, SoftDeleteMode,
};

#[test]
fn test_prelude_exports() {
    let _ = (Fresh, Filtered, OrderDirection::Asc, SoftDeleteMode::ExcludeDeleted);
}

#[test]
fn query_state_transitions() {
    let mut s = QueryState::default();
    assert!(s.is_fresh());
    s.filter();
    assert!(s.is_filtered() && !s.is_ordered());
    s.order();
    assert!(s.is_ordered());
    s.paginate();
    assert!(s.is_paginated() && s.is_filtered());
    s.aggregate();
    s.paginate();
    assert!(s.is_aggregated());
    s.execute();
    s.filter();
    s.order();
    assert!(s.is_executed());
}

#[test]
fn filter_operators() {
    assert_eq!(FilterOp::Contains.sql_operator(), "LIKE");
    assert_eq!(FilterOp::IsNotNull.sql_operator(), "IS NOT NULL");
    assert!(FilterOp::Gte.is_comparison());
    assert!(FilterOp::EndsWith.is_string_op());
    assert!(FilterOp::IsNull.is_null_check());
    assert!(!FilterOp::Between.is_comparison() && !FilterOp::Between.is_string_op());
}
