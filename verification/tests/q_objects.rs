use ormada::query::{FilterExpr, Q};

#[test]
fn q_all_joins_conditions_with_and() {
    let f = Q::all().add(FilterExpr::eq("published", "true")).add(FilterExpr::lt("price", "50")).into_filter();
    match f {
        FilterExpr::And(v) => {
            assert_eq!(v.len(), 2);
            assert!(matches!(&v[0], FilterExpr::Typed { column, value_repr, .. } if column == "published" && value_repr == "true"));
            assert!(matches!(&v[1], FilterExpr::Typed { column, value_repr, .. } if column == "price" && value_repr == "50"));
        }
        other => panic!("expected AND, got {:?}", other),
    }
}

#[test]
fn q_any_not_wraps_or_in_not() {
    let f = Q::any().add(FilterExpr::raw("a")).add(FilterExpr::raw("b")).not().into_filter();
    match f {
        FilterExpr::Not(b) => match *b {
            FilterExpr::Or(v) => assert_eq!(v.len(), 2),
            other => panic!("expected OR, got {:?}", other),
        },
        other => panic!("expected NOT, got {:?}", other),
    }
}

#[test]
fn q_double_negation_and_nesting() {
    let f = Q::all().add(FilterExpr::raw("x")).not().not().into_filter();
    assert!(matches!(f, FilterExpr::And(ref v) if v.len() == 1));
    let inner = Q::any().add(FilterExpr::raw("p")).add(FilterExpr::raw("q"));
    let f = Q::all().add_q(inner).add(FilterExpr::raw("r")).into_filter();
    match f {
        FilterExpr::And(v) => {
            assert_eq!(v.len(), 2);
            assert!(matches!(&v[0], FilterExpr::Or(w) if w.len() == 2));
            assert!(matches!(&v[1], FilterExpr::Raw(t) if t == "r"));
        }
        other => panic!("expected AND, got {:?}", other),
    }
}
