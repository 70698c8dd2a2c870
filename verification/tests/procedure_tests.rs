use vector_index::procedure::{
    check_filter, check_limits, check_query, resolve_property_name, vector_search, ProcedureError,
    PropertyEntry,
};

fn entry(name: &str, id: u32) -> PropertyEntry {
    PropertyEntry { name: name.to_string(), id }
}

fn catalog() -> Vec<Vec<PropertyEntry>> {
    vec![
        vec![entry("name", 0), entry("age", 1)],
        vec![],
        vec![entry("embedding", 7), entry("age", 2), entry("embedding", 9)],
        vec![entry("embedding", 3)],
    ]
}

#[test]
fn limits_must_be_positive() {
    assert!(matches!(check_limits(0, 5), Err(ProcedureError::NonPositiveLimit)));
    assert!(matches!(check_limits(5, 0), Err(ProcedureError::NonPositiveLimit)));
    assert!(matches!(check_limits(0, 0), Err(ProcedureError::NonPositiveLimit)));
}

#[test]
fn the_list_must_not_be_smaller_than_k() {
    assert!(matches!(check_limits(6, 5), Err(ProcedureError::ListSmallerThanK)));
    assert!(check_limits(5, 5).is_ok());
    assert!(check_limits(1, u32::MAX).is_ok());
}

#[test]
fn an_empty_query_is_refused() {
    assert!(matches!(check_query(0), Err(ProcedureError::EmptyQuery)));
    assert!(check_query(1).is_ok());
}

#[test]
fn a_filter_condition_is_refused() {
    assert!(matches!(check_filter(Some("age > 3")), Err(ProcedureError::FilterNotSupported)));
    assert!(check_filter(None).is_ok());
}

#[test]
fn messages_are_as_given() {
    assert_eq!(ProcedureError::NonPositiveLimit.message(), "k and l_value must be positive");
    assert_eq!(
        ProcedureError::ListSmallerThanK.message(),
        "l_value must be greater than or equal to k"
    );
    assert_eq!(
        ProcedureError::PropertyNotFound { name: "embedding".to_string() }.message(),
        "Property 'embedding' not found"
    );
    assert_eq!(ProcedureError::EmptyQuery.message(), "Query vector cannot be empty");
    assert_eq!(ProcedureError::FilterNotSupported.message(), "Filter conditions are not supported");
    assert_eq!(
        ProcedureError::SearchFailed { reason: "index not built".to_string() }.message(),
        "Vector search failed: index not built"
    );
}

#[test]
fn the_first_property_of_the_name_is_found() {
    let types = catalog();
    assert_eq!(resolve_property_name("embedding", &types), Some(7));
    assert_eq!(resolve_property_name("age", &types), Some(1));
    assert_eq!(resolve_property_name("name", &types), Some(0));
    assert_eq!(resolve_property_name("height", &types), None);
    assert_eq!(resolve_property_name("", &types), None);
    assert_eq!(resolve_property_name("embedding", &[]), None);
}

#[test]
fn vector_search_hands_the_property_to_the_search() {
    let r = vector_search("embedding", 128, 3, 16, None, catalog, |property| {
        assert_eq!(property, 7);
        Ok(vec![20, 10, 30])
    });
    assert_eq!(r.unwrap(), vec![20, 10, 30]);
}

#[test]
fn vector_search_checks_the_limits_before_the_catalog() {
    let r = vector_search(
        "embedding",
        128,
        0,
        16,
        None,
        || -> Vec<Vec<PropertyEntry>> { panic!("catalog read") },
        |_| -> Result<Vec<u64>, String> { panic!("searched") },
    );
    assert!(matches!(r, Err(ProcedureError::NonPositiveLimit)));
    let r = vector_search(
        "embedding",
        128,
        17,
        16,
        None,
        || -> Vec<Vec<PropertyEntry>> { panic!("catalog read") },
        |_| -> Result<Vec<u64>, String> { panic!("searched") },
    );
    assert!(matches!(r, Err(ProcedureError::ListSmallerThanK)));
}

#[test]
fn vector_search_reports_an_unknown_property() {
    let r = vector_search("height", 0, 3, 16, Some("x"), catalog, |_| -> Result<Vec<u64>, String> {
        panic!("searched")
    });
    match r {
        Err(e @ ProcedureError::PropertyNotFound { .. }) => {
            assert_eq!(e.message(), "Property 'height' not found")
        }
        _ => panic!("wrong result"),
    }
}

#[test]
fn vector_search_refuses_an_empty_query_before_a_filter() {
    let r = vector_search("age", 0, 3, 16, Some("x"), catalog, |_| -> Result<Vec<u64>, String> {
        panic!("searched")
    });
    assert!(matches!(r, Err(ProcedureError::EmptyQuery)));
    let r = vector_search("age", 4, 3, 16, Some("x"), catalog, |_| -> Result<Vec<u64>, String> {
        panic!("searched")
    });
    assert!(matches!(r, Err(ProcedureError::FilterNotSupported)));
}

#[test]
fn vector_search_reports_a_failed_search() {
    let r = vector_search("age", 4, 3, 16, None, catalog, |_| Err("index not built".to_string()));
    match r {
        Err(e @ ProcedureError::SearchFailed { .. }) => {
            assert_eq!(e.message(), "Vector search failed: index not built")
        }
        _ => panic!("wrong result"),
    }
}
