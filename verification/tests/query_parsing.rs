use dagger::query::parser::{
    parse_filter, parse_filter_expression, parse_network_query, parse_query_path, parse_range,
    FilterOperator, ParseError, QueryPath,
};

#[test]
fn test_parse_node() {
    let result = parse_query_path("branch-4").unwrap();
    assert!(matches!(result, QueryPath::Node(id) if id == "branch-4"));
}

#[test]
fn test_parse_property() {
    let result = parse_query_path("branch-4/label").unwrap();
    match result {
        QueryPath::Property(name, inner) => {
            assert_eq!(name, "label");
            assert!(matches!(*inner, QueryPath::Node(id) if id == "branch-4"));
        }
        _ => panic!("Expected Property"),
    }
}

#[test]
fn test_parse_index() {
    let result = parse_query_path("branch-4/blocks/0").unwrap();
    match result {
        QueryPath::Index(0, inner) => match *inner {
            QueryPath::Property(name, inner2) => {
                assert_eq!(name, "blocks");
                assert!(matches!(*inner2, QueryPath::Node(id) if id == "branch-4"));
            }
            _ => panic!("Expected Property"),
        },
        _ => panic!("Expected Index"),
    }
}

#[test]
fn test_parse_nested() {
    let result = parse_query_path("branch-4/position/x").unwrap();
    match result {
        QueryPath::Property(x, inner) => {
            assert_eq!(x, "x");
            match *inner {
                QueryPath::Property(pos, inner2) => {
                    assert_eq!(pos, "position");
                    assert!(matches!(*inner2, QueryPath::Node(id) if id == "branch-4"));
                }
                _ => panic!("Expected nested Property"),
            }
        }
        _ => panic!("Expected Property"),
    }
}

#[test]
fn test_parse_node_query() {
    let result = parse_query_path("branch-1").unwrap();
    assert!(matches!(result, QueryPath::Node(id) if id == "branch-1"));
}

#[test]
fn test_parse_property_query() {
    let result = parse_query_path("branch-1/label").unwrap();
    match result {
        QueryPath::Property(name, inner) => {
            assert_eq!(name, "label");
            assert!(matches!(*inner, QueryPath::Node(id) if id == "branch-1"));
        }
        _ => panic!("Expected Property"),
    }
}

#[test]
fn test_parse_index_query() {
    let result = parse_query_path("branch-1/blocks/0").unwrap();
    match result {
        QueryPath::Index(0, inner) => match *inner {
            QueryPath::Property(name, inner2) => {
                assert_eq!(name, "blocks");
                assert!(matches!(*inner2, QueryPath::Node(id) if id == "branch-1"));
            }
            _ => panic!("Expected Property"),
        },
        _ => panic!("Expected Index"),
    }
}

#[test]
fn test_parse_range_query() {
    let result = parse_query_path("branch-1/blocks/1:2").unwrap();
    match result {
        QueryPath::Range { start, end, inner } => {
            assert_eq!(start, Some(1));
            assert_eq!(end, Some(2));
            match *inner {
                QueryPath::Property(name, inner2) => {
                    assert_eq!(name, "blocks");
                    assert!(matches!(*inner2, QueryPath::Node(id) if id == "branch-1"));
                }
                _ => panic!("Expected Property"),
            }
        }
        _ => panic!("Expected Range"),
    }

    let result = parse_query_path("branch-1/blocks/1:").unwrap();
    match result {
        QueryPath::Range {
            start,
            end,
            inner: _,
        } => {
            assert_eq!(start, Some(1));
            assert_eq!(end, None);
        }
        _ => panic!("Expected Range"),
    }

    let result = parse_query_path("branch-1/blocks/:2").unwrap();
    match result {
        QueryPath::Range {
            start,
            end,
            inner: _,
        } => {
            assert_eq!(start, None);
            assert_eq!(end, Some(2));
        }
        _ => panic!("Expected Range"),
    }
}

#[test]
fn test_parse_filter_query() {
    let result = parse_query_path("branch-1/blocks[type=Compressor]").unwrap();
    match result {
        QueryPath::Filter {
            field,
            operator: _,
            value,
            inner,
        } => {
            assert_eq!(field, "type");
            assert_eq!(value, "Compressor");
            match *inner {
                QueryPath::Property(blocks, inner2) => {
                    assert_eq!(blocks, "blocks");
                    assert!(matches!(*inner2, QueryPath::Node(id) if id == "branch-1"));
                }
                _ => panic!("Expected Property"),
            }
        }
        _ => panic!("Expected Filter"),
    }
}

#[test]
fn test_parse_network_query_nodes() {
    let result = parse_query_path("nodes").unwrap();
    match result {
        QueryPath::Property(name, inner) => {
            assert_eq!(name, "nodes");
            assert!(matches!(*inner, QueryPath::Node(id) if id == "network"));
        }
        _ => panic!("Expected Property with nodes"),
    }
}

#[test]
fn test_parse_network_query_edges() {
    let result = parse_query_path("edges").unwrap();
    match result {
        QueryPath::Property(name, inner) => {
            assert_eq!(name, "edges");
            assert!(matches!(*inner, QueryPath::Node(id) if id == "network"));
        }
        _ => panic!("Expected Property with edges"),
    }
}

#[test]
fn test_parse_network_query_with_filter() {
    let result = parse_query_path("nodes[type=branchNode]").unwrap();
    match result {
        QueryPath::Filter {
            field,
            value,
            inner,
            ..
        } => {
            assert_eq!(field, "type");
            assert_eq!(value, "branchNode");
            match *inner {
                QueryPath::Property(name, inner2) => {
                    assert_eq!(name, "nodes");
                    assert!(matches!(*inner2, QueryPath::Node(id) if id == "network"));
                }
                _ => panic!("Expected Property"),
            }
        }
        _ => panic!("Expected Filter"),
    }
}

fn node(id: &str) -> QueryPath {
    QueryPath::Node(id.to_string())
}

fn property(name: &str, inner: QueryPath) -> QueryPath {
    QueryPath::Property(name.to_string(), Box::new(inner))
}

#[test]
fn empty_path_is_rejected() {
    assert_eq!(parse_query_path(""), Err(ParseError::EmptyPath));
}

#[test]
fn plain_identifier_is_a_node() {
    for id in ["x", "branch-4", "a b", "node[1]", "a:b", "12", "a?b", "Nodes"] {
        assert_eq!(parse_query_path(id), Ok(node(id)));
    }
}

#[test]
fn index_after_property() {
    assert_eq!(
        parse_query_path("x/blocks/0"),
        Ok(QueryPath::Index(0, Box::new(property("blocks", node("x")))))
    );
}

#[test]
fn empty_segments_are_passed_over() {
    assert_eq!(parse_query_path("x//label/"), Ok(property("label", node("x"))));
}

#[test]
fn index_with_plus_sign_and_leading_zeros() {
    assert_eq!(
        parse_query_path("x/+7"),
        Ok(QueryPath::Index(7, Box::new(node("x"))))
    );
    assert_eq!(
        parse_query_path("x/007"),
        Ok(QueryPath::Index(7, Box::new(node("x"))))
    );
    assert_eq!(parse_query_path("x/-7"), Ok(property("-7", node("x"))));
    assert_eq!(parse_query_path("x/+"), Ok(property("+", node("x"))));
}

#[test]
fn index_too_large_is_a_property() {
    let huge = "340282366920938463463374607431768211456";
    assert_eq!(
        parse_query_path(&format!("x/{}", huge)),
        Ok(property(huge, node("x")))
    );
    let max = usize::MAX.to_string();
    assert_eq!(
        parse_query_path(&format!("x/{}", max)),
        Ok(QueryPath::Index(usize::MAX, Box::new(node("x"))))
    );
}

#[test]
fn range_then_filter_in_one_segment() {
    let parsed = parse_query_path("x/blocks/0:1[type=Compressor]").unwrap();
    let expected = QueryPath::Filter {
        field: "type".to_string(),
        operator: FilterOperator::Equals,
        value: "Compressor".to_string(),
        inner: Box::new(QueryPath::Range {
            start: Some(0),
            end: Some(1),
            inner: Box::new(property("blocks", node("x"))),
        }),
    };
    assert_eq!(parsed, expected);
}

#[test]
fn filter_without_name_wraps_the_path() {
    let parsed = parse_query_path("x/blocks/[quantity>=2]").unwrap();
    let expected = QueryPath::Filter {
        field: "quantity".to_string(),
        operator: FilterOperator::GreaterThanOrEqual,
        value: "2".to_string(),
        inner: Box::new(property("blocks", node("x"))),
    };
    assert_eq!(parsed, expected);
}

#[test]
fn filter_operators_in_order_of_trial() {
    let cases = [
        ("a>=1", "a", FilterOperator::GreaterThanOrEqual, "1"),
        ("a<=1", "a", FilterOperator::LessThanOrEqual, "1"),
        ("a!=1", "a", FilterOperator::NotEquals, "1"),
        ("a>1", "a", FilterOperator::GreaterThan, "1"),
        ("a<1", "a", FilterOperator::LessThan, "1"),
        ("a=1", "a", FilterOperator::Equals, "1"),
        (" a  =  b c ", "a", FilterOperator::Equals, "b c"),
        ("a=b>=c", "a=b", FilterOperator::GreaterThanOrEqual, "c"),
        ("a<b=c", "a", FilterOperator::LessThan, "b=c"),
        ("=", "", FilterOperator::Equals, ""),
    ];
    for (text, field, operator, value) in cases {
        assert_eq!(
            parse_filter_expression(text),
            Ok((field.to_string(), operator, value.to_string()))
        );
    }
    assert_eq!(
        parse_filter_expression("abc"),
        Err(ParseError::InvalidCharacter('=', 0))
    );
}

#[test]
fn range_bounds() {
    assert_eq!(parse_range("1:2"), Ok(Some((Some(1), Some(2)))));
    assert_eq!(parse_range(":2"), Ok(Some((None, Some(2)))));
    assert_eq!(parse_range("1:"), Ok(Some((Some(1), None))));
    assert_eq!(parse_range(":"), Ok(Some((None, None))));
    assert_eq!(parse_range("12"), Ok(None));
    assert_eq!(parse_range("1:2:3"), Ok(None));
    assert_eq!(
        parse_range("a:2"),
        Err(ParseError::InvalidIndex("Invalid range start: a".to_string()))
    );
    assert_eq!(
        parse_range("1:b"),
        Err(ParseError::InvalidIndex("Invalid range end: b".to_string()))
    );
    assert_eq!(
        parse_range("a:b"),
        Err(ParseError::InvalidIndex("Invalid range start: a".to_string()))
    );
}

#[test]
fn malformed_range_in_a_path() {
    assert_eq!(
        parse_query_path("x/blocks/1:z"),
        Err(ParseError::InvalidIndex("Invalid range end: z".to_string()))
    );
}

#[test]
fn filter_syntax() {
    assert_eq!(
        parse_filter("blocks[type=Pipe]"),
        Ok(Some((
            "blocks".to_string(),
            "type".to_string(),
            FilterOperator::Equals,
            "Pipe".to_string()
        )))
    );
    assert_eq!(parse_filter("blocks"), Ok(None));
    assert_eq!(parse_filter("blocks[type=Pipe"), Ok(None));
    assert_eq!(parse_filter("a]b[c=d"), Ok(None));
    assert_eq!(
        parse_filter("blocks[type]"),
        Err(ParseError::InvalidCharacter('=', 0))
    );
}

#[test]
fn network_queries() {
    assert_eq!(
        parse_network_query("edges[source=branch-1]"),
        Ok(QueryPath::Filter {
            field: "source".to_string(),
            operator: FilterOperator::Equals,
            value: "branch-1".to_string(),
            inner: Box::new(property("edges", node("network"))),
        })
    );
    assert_eq!(
        parse_query_path("nodes/0"),
        Err(ParseError::InvalidCharacter('?', 0))
    );
    assert_eq!(
        parse_query_path("edgesx[a=b]"),
        Err(ParseError::InvalidCharacter('?', 0))
    );
    assert_eq!(
        parse_query_path("nodes[a]"),
        Err(ParseError::InvalidCharacter('=', 0))
    );
}

#[test]
fn scope_lookup() {
    let parsed = parse_query_path("b/blocks/0/pressure?scope=block, Branch ,global").unwrap();
    let expected = QueryPath::ScopeResolve {
        property: "pressure".to_string(),
        scopes: vec![
            "block".to_string(),
            "Branch".to_string(),
            "global".to_string(),
        ],
        inner: Box::new(QueryPath::Index(
            0,
            Box::new(property("blocks", node("b"))),
        )),
    };
    assert_eq!(parsed, expected);
}

#[test]
fn scope_lookup_with_one_segment() {
    assert_eq!(
        parse_query_path("b?scope=global"),
        Ok(QueryPath::ScopeResolve {
            property: "b".to_string(),
            scopes: vec!["global".to_string()],
            inner: Box::new(node("b")),
        })
    );
}

#[test]
fn scope_lookup_without_a_path() {
    assert_eq!(
        parse_query_path("?scope=block"),
        Err(ParseError::UnexpectedEnd)
    );
    assert_eq!(parse_query_path("/p?scope=block"), Err(ParseError::EmptyPath));
}

#[test]
fn question_mark_without_scope_is_plain_text() {
    assert_eq!(
        parse_query_path("b/label?units=bar"),
        Ok(property("label?units=bar", node("b")))
    );
}

#[test]
fn parse_error_messages() {
    assert_eq!(ParseError::EmptyPath.message(), "Query path cannot be empty");
    assert_eq!(
        ParseError::InvalidIndex("Invalid range start: a".to_string()).message(),
        "Invalid index: Invalid range start: a"
    );
    assert_eq!(ParseError::UnexpectedEnd.message(), "Unexpected end of path");
    assert_eq!(
        ParseError::InvalidCharacter('?', 12).message(),
        "Invalid character '?' at position 12"
    );
}

#[test]
fn clone_keeps_the_path() {
    let parsed = parse_query_path("b/blocks/0:1[type=Pipe]/0/x?scope=block").unwrap();
    assert_eq!(parsed.clone(), parsed);
}
