use ormada::aggregations::AggregateValueInt;

#[test]
fn test_aggregate_value_int_some() {
    let result = AggregateValueInt { value: Some(42) };
    assert_eq!(result.value, Some(42));
}

#[test]
fn test_aggregate_value_int_none() {
    let result = AggregateValueInt { value: None };
    assert_eq!(result.value, None);
}
