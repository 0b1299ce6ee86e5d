use dagger::parser::models::{
    Block, BranchNode, Edge, EdgeData, GroupNode, Network, NodeBase, NodeData, Outgoing, Position,
};
use dagger::query::executor::{apply_filter, QueryError, QueryExecutor};
use dagger::query::parser::{parse_query_path, FilterOperator, QueryPath};
use dagger::scope::config::Config;
use dagger::scope::resolver::ScopeResolver;
use dagger::value::{Float, JsonValue, Number, StringMap, TomlValue};

fn float(x: f64) -> Float {
    Float::from_bits(x.to_bits())
}

fn create_test_network() -> Network {
    let branch = BranchNode {
        base: NodeBase {
            id: "branch-1".to_string(),
            type_: "branchNode".to_string(),
            label: Some("Test Branch".to_string()),
            position: Position { x: 0, y: 0 },
            parent_id: None,
            width: None,
            height: None,
            extra: StringMap::new(),
        },
        blocks: vec![
            Block {
                type_: "Compressor".to_string(),
                quantity: Some(1),
                extra: {
                    let mut map = StringMap::new();
                    map.insert("pressure".to_string(), TomlValue::Float(float(15.5)));
                    map
                },
            },
            Block {
                type_: "Pipe".to_string(),
                quantity: Some(1),
                extra: StringMap::new(),
            },
        ],
        outgoing: vec![],
    };

    Network {
        id: "test-network".to_string(),
        label: "Test Network".to_string(),
        nodes: vec![NodeData::Branch(branch)],
        edges: vec![],
    }
}

#[test]
fn test_execute_node_query() {
    let network = create_test_network();
    let executor = QueryExecutor::new(&network);
    let query = parse_query_path("branch-1").unwrap();
    let result = executor.execute(&query).unwrap();

    assert!(result.is_object());
    assert_eq!(result.get("id").and_then(|v| v.as_str()), Some("branch-1"));
}

#[test]
fn test_execute_property_query() {
    let network = create_test_network();
    let executor = QueryExecutor::new(&network);
    let query = parse_query_path("branch-1/label").unwrap();
    let result = executor.execute(&query).unwrap();

    assert_eq!(result.as_str(), Some("Test Branch"));
}

#[test]
fn test_execute_range_query() {
    let network = create_test_network();
    let executor = QueryExecutor::new(&network);

    let query = parse_query_path("branch-1/blocks/0:1").unwrap();
    let result = executor.execute(&query).unwrap();
    assert!(result.is_array());
    let arr = result.as_array().unwrap();
    assert_eq!(arr.len(), 2);

    let query = parse_query_path("branch-1/blocks/:1").unwrap();
    let result = executor.execute(&query).unwrap();
    assert!(result.is_array());
    let arr = result.as_array().unwrap();
    assert_eq!(arr.len(), 2);

    let query = parse_query_path("branch-1/blocks/1:").unwrap();
    let result = executor.execute(&query).unwrap();
    assert!(result.is_array());
    let arr = result.as_array().unwrap();
    assert_eq!(arr.len(), 1);
}

#[test]
fn test_filter_then_range() {
    let network = create_test_network();
    let executor = QueryExecutor::new(&network);

    let query = parse_query_path("branch-1/blocks[type=Compressor]/0:0").unwrap();
    let result = executor.execute(&query).unwrap();
    assert!(result.is_array());
    let arr = result.as_array().unwrap();
    assert_eq!(arr.len(), 1);
}

#[test]
fn test_range_then_filter() {
    let network = create_test_network();
    let executor = QueryExecutor::new(&network);

    let query = parse_query_path("branch-1/blocks/0:1[type=Compressor]").unwrap();
    let result = executor.execute(&query).unwrap();
    assert!(result.is_array());
    let arr = result.as_array().unwrap();
    assert_eq!(arr.len(), 1);
}

#[test]
fn test_execute_filter_query() {
    let network = create_test_network();
    let executor = QueryExecutor::new(&network);
    let query = parse_query_path("branch-1/blocks[type=Compressor]").unwrap();
    let result = executor.execute(&query);

    assert!(result.is_ok() || result.is_err());
}

#[test]
fn test_execute_network_query_nodes() {
    let network = create_test_network();
    let executor = QueryExecutor::new(&network);
    let query = parse_query_path("nodes").unwrap();
    let result = executor.execute(&query).unwrap();

    assert!(result.is_array());
    let arr = result.as_array().unwrap();
    assert_eq!(arr.len(), 1);
}

#[test]
fn test_execute_scope_resolution_block_level() {
    let network = create_test_network();
    let config = Config::empty();
    let resolver = ScopeResolver::new(config);
    let executor = QueryExecutor::with_scope_resolver(&network, &resolver);

    let query = parse_query_path("branch-1/blocks/0/pressure?scope=block,branch,global").unwrap();
    let result = executor.execute(&query).unwrap();

    assert_eq!(
        result.as_float().map(|f| f64::from_bits(f.to_bits())),
        Some(15.5)
    );
}

#[test]
fn test_execute_scope_resolution_not_found() {
    let network = create_test_network();
    let config = Config::empty();
    let resolver = ScopeResolver::new(config);
    let executor = QueryExecutor::with_scope_resolver(&network, &resolver);

    let query =
        parse_query_path("branch-1/blocks/1/temperature?scope=block,branch,global").unwrap();
    let result = executor.execute(&query);

    assert!(result.is_err());
}

#[test]
fn test_execute_scope_resolution_with_global() {
    let network = create_test_network();
    let mut config = Config::empty();
    config
        .properties
        .insert("ambientTemperature".to_string(), TomlValue::Float(float(20.0)));
    let resolver = ScopeResolver::new(config);
    let executor = QueryExecutor::with_scope_resolver(&network, &resolver);

    let query =
        parse_query_path("branch-1/blocks/1/ambientTemperature?scope=block,branch,global")
            .unwrap();
    let result = executor.execute(&query).unwrap();

    assert_eq!(
        result.as_float().map(|f| f64::from_bits(f.to_bits())),
        Some(20.0)
    );
}

#[test]
fn test_execute_network_query_edges() {
    let network = create_test_network();
    let executor = QueryExecutor::new(&network);
    let query = parse_query_path("edges").unwrap();
    let result = executor.execute(&query).unwrap();

    assert!(result.is_array());
    let arr = result.as_array().unwrap();
    assert_eq!(arr.len(), 0);
}

#[test]
fn test_execute_network_query_with_filter() {
    let network = create_test_network();
    let executor = QueryExecutor::new(&network);
    let query = parse_query_path("nodes[type=branchNode]").unwrap();
    let result = executor.execute(&query);

    assert!(result.is_ok() || result.is_err());
}

#[test]
fn test_execute_network_query_edges_with_filter() {
    let mut network = create_test_network();
    network.edges.push(Edge {
        id: "edge-1".to_string(),
        source: "branch-1".to_string(),
        target: "branch-2".to_string(),
        data: EdgeData { weight: 1 },
    });
    let executor = QueryExecutor::new(&network);
    let query = parse_query_path("edges[source=branch-1]").unwrap();
    let result = executor.execute(&query);

    assert!(result.is_ok() || result.is_err());
}

fn text(s: &str) -> JsonValue {
    JsonValue::String(s.to_string())
}

fn object(members: Vec<(&str, JsonValue)>) -> JsonValue {
    JsonValue::Object(
        members
            .into_iter()
            .map(|(k, v)| (k.to_string(), v))
            .collect(),
    )
}

fn compressor_json() -> JsonValue {
    object(vec![
        ("type", text("Compressor")),
        ("quantity", JsonValue::Number(Number::PosInt(1))),
        ("pressure", JsonValue::Number(Number::Float(float(15.5)))),
    ])
}

fn pipe_json() -> JsonValue {
    object(vec![
        ("type", text("Pipe")),
        ("quantity", JsonValue::Number(Number::PosInt(1))),
    ])
}

fn run(network: &Network, path: &str) -> Result<JsonValue, QueryError> {
    QueryExecutor::new(network).execute(&parse_query_path(path).unwrap())
}

#[test]
fn node_is_shown_with_all_its_members() {
    let network = create_test_network();
    let expected = object(vec![
        ("id", text("branch-1")),
        ("type", text("branchNode")),
        ("label", text("Test Branch")),
        (
            "position",
            object(vec![
                ("x", JsonValue::Number(Number::PosInt(0))),
                ("y", JsonValue::Number(Number::PosInt(0))),
            ]),
        ),
        (
            "blocks",
            JsonValue::Array(vec![compressor_json(), pipe_json()]),
        ),
    ]);
    assert_eq!(run(&network, "branch-1"), Ok(expected.clone()));
    assert_eq!(run(&network, "branch-1/data"), Ok(expected));
}

#[test]
fn index_yields_the_block() {
    let network = create_test_network();
    assert_eq!(run(&network, "branch-1/blocks/0"), Ok(compressor_json()));
    assert_eq!(run(&network, "branch-1/blocks/1"), Ok(pipe_json()));
}

#[test]
fn error_scenarios() {
    let network = create_test_network();
    assert_eq!(
        run(&network, "missing-node"),
        Err(QueryError::NodeNotFound("missing-node".to_string()))
    );
    assert_eq!(
        run(&network, "branch-1/blocks/99"),
        Err(QueryError::IndexOutOfRange(99, 2))
    );
    assert_eq!(
        run(&network, "branch-1/nothing"),
        Err(QueryError::PropertyNotFound("nothing".to_string()))
    );
    assert_eq!(
        run(&network, "branch-1/label/x"),
        Err(QueryError::InvalidType(
            "Cannot access property 'x' on non-object".to_string()
        ))
    );
    assert_eq!(
        run(&network, "branch-1/label/0"),
        Err(QueryError::InvalidType(
            "Cannot index into non-array (index: 0)".to_string()
        ))
    );
    assert_eq!(
        run(&network, "branch-1/label/0:1"),
        Err(QueryError::InvalidType(
            "Cannot apply range to non-array".to_string()
        ))
    );
    assert_eq!(
        run(&network, "branch-1/label/[a=b]"),
        Err(QueryError::InvalidType(
            "Filter can only be applied to arrays".to_string()
        ))
    );
    assert_eq!(
        run(&network, "branch-1/blocks/1:0"),
        Err(QueryError::InvalidType(
            "Range start (1) must be <= end (0)".to_string()
        ))
    );
    assert_eq!(
        run(&network, "branch-1/blocks/2:"),
        Err(QueryError::IndexOutOfRange(2, 2))
    );
    assert_eq!(
        run(&network, "branch-1/blocks/0:5"),
        Err(QueryError::IndexOutOfRange(5, 2))
    );
    assert_eq!(
        run(&network, "branch-1/blocks/0/pressure?scope=block"),
        Err(QueryError::InvalidType(
            "Scope resolution requires scope resolver. Use resolve command instead.".to_string()
        ))
    );
}

#[test]
fn error_messages() {
    assert_eq!(
        QueryError::NodeNotFound("n".to_string()).message(),
        "Node 'n' not found"
    );
    assert_eq!(
        QueryError::PropertyNotFound("p".to_string()).message(),
        "Property 'p' not found"
    );
    assert_eq!(
        QueryError::IndexOutOfRange(99, 2).message(),
        "Index 99 out of range (length: 2)"
    );
    assert_eq!(
        QueryError::InvalidType("bad".to_string()).message(),
        "Invalid type: bad"
    );
    let parse_error = parse_query_path("").unwrap_err();
    assert_eq!(
        QueryError::from(parse_error).message(),
        "Parse error: Query path cannot be empty"
    );
}

fn five_blocks() -> Network {
    let types = ["A", "Compressor", "B", "Compressor", "C"];
    let blocks = types
        .iter()
        .enumerate()
        .map(|(i, t)| Block {
            type_: t.to_string(),
            quantity: Some(i as u32),
            extra: StringMap::new(),
        })
        .collect();
    Network {
        id: "n".to_string(),
        label: "N".to_string(),
        nodes: vec![NodeData::Branch(BranchNode {
            base: NodeBase {
                id: "b".to_string(),
                type_: "branch".to_string(),
                label: None,
                position: Position { x: -3, y: 7 },
                parent_id: None,
                width: None,
                height: None,
                extra: StringMap::new(),
            },
            blocks,
            outgoing: vec![Outgoing {
                target: "c".to_string(),
                weight: 4,
            }],
        })],
        edges: vec![],
    }
}

fn quantities(value: &JsonValue) -> Vec<u64> {
    value
        .as_array()
        .unwrap()
        .iter()
        .map(|b| match b.get("quantity").unwrap().as_number().unwrap() {
            Number::PosInt(n) => n,
            other => panic!("unexpected number {:?}", other),
        })
        .collect()
}

#[test]
fn range_includes_its_end() {
    let network = five_blocks();
    assert_eq!(quantities(&run(&network, "b/blocks/1:2").unwrap()), vec![1, 2]);
    assert_eq!(quantities(&run(&network, "b/blocks/:2").unwrap()), vec![0, 1, 2]);
    assert_eq!(quantities(&run(&network, "b/blocks/1:").unwrap()), vec![1, 2, 3, 4]);
    assert_eq!(quantities(&run(&network, "b/blocks/:").unwrap()), vec![0, 1, 2, 3, 4]);
    assert_eq!(quantities(&run(&network, "b/blocks/4:4").unwrap()), vec![4]);
}

#[test]
fn range_is_taken_before_the_filter() {
    let network = five_blocks();
    assert_eq!(
        quantities(&run(&network, "b/blocks/0:1[type=Compressor]").unwrap()),
        vec![1]
    );
    assert_eq!(
        quantities(&run(&network, "b/blocks[type=Compressor]").unwrap()),
        vec![1, 3]
    );
    assert_eq!(
        quantities(&run(&network, "b/blocks[type=Compressor]/1:1").unwrap()),
        vec![3]
    );
    assert_eq!(
        quantities(&run(&network, "b/blocks[type!=Compressor]").unwrap()),
        vec![0, 2, 4]
    );
}

#[test]
fn negative_position_and_outgoing() {
    let network = five_blocks();
    assert_eq!(
        run(&network, "b/position/x"),
        Ok(JsonValue::Number(Number::NegInt(-3)))
    );
    assert_eq!(
        run(&network, "b/outgoing/0"),
        Ok(object(vec![
            ("target", text("c")),
            ("weight", JsonValue::Number(Number::PosInt(4))),
        ]))
    );
    assert_eq!(
        run(&network, "b/label"),
        Err(QueryError::PropertyNotFound("label".to_string()))
    );
}

fn literals(pairs: &[(&str, f64)]) -> StringMap<Float> {
    let mut map = StringMap::new();
    for (text, value) in pairs {
        map.insert(text.to_string(), float(*value));
    }
    map
}

fn run_with(network: &Network, path: &str, pairs: &[(&str, f64)]) -> Result<JsonValue, QueryError> {
    QueryExecutor::new(network)
        .with_numeric_literals(literals(pairs))
        .execute(&parse_query_path(path).unwrap())
}

#[test]
fn numeric_filters() {
    let network = five_blocks();
    let two = [("2", 2.0)];
    assert_eq!(
        quantities(&run_with(&network, "b/blocks[quantity>2]", &two).unwrap()),
        vec![3, 4]
    );
    assert_eq!(
        quantities(&run_with(&network, "b/blocks[quantity>=2]", &two).unwrap()),
        vec![2, 3, 4]
    );
    assert_eq!(
        quantities(&run_with(&network, "b/blocks[quantity<2]", &two).unwrap()),
        vec![0, 1]
    );
    assert_eq!(
        quantities(&run_with(&network, "b/blocks[quantity<=2]", &two).unwrap()),
        vec![0, 1, 2]
    );
    assert_eq!(
        quantities(&run_with(&network, "b/blocks[quantity=2]", &two).unwrap()),
        vec![2]
    );
    assert_eq!(
        quantities(&run_with(&network, "b/blocks[quantity!=2]", &two).unwrap()),
        vec![0, 1, 3, 4]
    );
    // A text that reads as no number cannot be ordered: the filter fails.
    assert_eq!(
        run(&network, "b/blocks[quantity>two]"),
        Err(QueryError::InvalidType(
            "Cannot parse filter value as number: two".to_string()
        ))
    );
    // A field that is no number cannot be ordered: the filter fails.
    assert_eq!(
        run_with(&network, "b/blocks[type>2]", &two),
        Err(QueryError::InvalidType(
            "Comparison operators only work with numbers".to_string()
        ))
    );
    // An element without the field is passed over, whatever the operator.
    assert_eq!(
        quantities(&run_with(&network, "b/blocks[missing>2]", &two).unwrap()),
        Vec::<u64>::new()
    );
    // Equality asks for no number.
    assert_eq!(
        quantities(&run(&network, "b/blocks[quantity=two]").unwrap()),
        Vec::<u64>::new()
    );
}

#[test]
fn ordering_of_what_is_no_number_ends_the_filter() {
    let list = JsonValue::Array(vec![object(vec![("type", text("Pipe"))])]);
    assert!(matches!(
        apply_filter(
            &list,
            "type",
            FilterOperator::GreaterThan,
            "3",
            Some(float(3.0))
        ),
        Err(QueryError::InvalidType(_))
    ));
    // The first element that cannot be compared decides, in list order;
    // elements without the field before it are passed over.
    let mixed = JsonValue::Array(vec![
        object(vec![("other", text("x"))]),
        object(vec![("n", JsonValue::Number(Number::PosInt(5)))]),
        object(vec![("n", text("five"))]),
        object(vec![("n", JsonValue::Bool(true))]),
    ]);
    assert_eq!(
        apply_filter(&mixed, "n", FilterOperator::LessThan, "9", Some(float(9.0))),
        Err(QueryError::InvalidType(
            "Comparison operators only work with numbers".to_string()
        ))
    );
    assert_eq!(
        apply_filter(&mixed, "n", FilterOperator::LessThan, "nine", None),
        Err(QueryError::InvalidType(
            "Cannot parse filter value as number: nine".to_string()
        ))
    );
    let numbers = JsonValue::Array(vec![
        object(vec![("other", text("x"))]),
        object(vec![("n", JsonValue::Number(Number::PosInt(5)))]),
        object(vec![("n", JsonValue::Number(Number::PosInt(12)))]),
    ]);
    assert_eq!(
        apply_filter(&numbers, "n", FilterOperator::LessThan, "9", Some(float(9.0))),
        Ok(JsonValue::Array(vec![object(vec![(
            "n",
            JsonValue::Number(Number::PosInt(5))
        )])]))
    );
    assert_eq!(
        apply_filter(&JsonValue::Array(vec![]), "n", FilterOperator::LessThan, "nine", None),
        Ok(JsonValue::Array(vec![]))
    );
}

#[test]
fn equality_tolerance() {
    let network = create_test_network();
    let hit = run_with(
        &network,
        "branch-1/blocks[pressure=15.5]",
        &[("15.5", 15.5)],
    )
    .unwrap();
    assert_eq!(hit.as_array().unwrap().len(), 1);
    let miss = run_with(
        &network,
        "branch-1/blocks[pressure=15.5000001]",
        &[("15.5000001", 15.5000001)],
    )
    .unwrap();
    assert_eq!(miss.as_array().unwrap().len(), 0);
}

#[test]
fn nested_field_in_a_filter() {
    let mut network = five_blocks();
    network.nodes.push(NodeData::Group(GroupNode {
        base: NodeBase {
            id: "g".to_string(),
            type_: "labeledGroup".to_string(),
            label: Some("G".to_string()),
            position: Position { x: 1, y: 2 },
            parent_id: None,
            width: Some(10),
            height: None,
            extra: StringMap::new(),
        },
    }));
    network.edges.push(Edge {
        id: "b_c".to_string(),
        source: "b".to_string(),
        target: "c".to_string(),
        data: EdgeData { weight: 4 },
    });
    // `data` names the object itself, so `data.weight` looks for `weight`
    // in the edge, which has none.
    let aliased = run_with(&network, "edges[data.weight=4]", &[("4", 4.0)]).unwrap();
    assert_eq!(aliased.as_array().unwrap().len(), 0);
    let by_id = run(&network, "edges[data.id=b_c]").unwrap();
    assert_eq!(by_id.as_array().unwrap().len(), 1);
    let points = JsonValue::Array(vec![
        object(vec![(
            "position",
            object(vec![("x", JsonValue::Number(Number::PosInt(1)))]),
        )]),
        object(vec![(
            "position",
            object(vec![("x", JsonValue::Number(Number::PosInt(2)))]),
        )]),
        object(vec![("other", JsonValue::Null)]),
    ]);
    let kept = apply_filter(
        &points,
        "position.x",
        FilterOperator::Equals,
        "2",
        Some(float(2.0)),
    )
    .unwrap();
    assert_eq!(
        kept,
        JsonValue::Array(vec![object(vec![(
            "position",
            object(vec![("x", JsonValue::Number(Number::PosInt(2)))]),
        )])])
    );
    let by_source = run(&network, "edges[source=b]").unwrap();
    assert_eq!(
        by_source,
        JsonValue::Array(vec![object(vec![
            (
                "data",
                object(vec![("weight", JsonValue::Number(Number::PosInt(4)))])
            ),
            ("id", text("b_c")),
            ("source", text("b")),
            ("target", text("c")),
        ])])
    );
}

#[test]
fn network_nodes_collection() {
    let mut network = create_test_network();
    let mut extra = StringMap::new();
    extra.insert("ambient".to_string(), TomlValue::Integer(5));
    network.nodes.push(NodeData::Group(GroupNode {
        base: NodeBase {
            id: "g".to_string(),
            type_: "labeledGroup".to_string(),
            label: None,
            position: Position { x: 1, y: 2 },
            parent_id: None,
            width: Some(10),
            height: None,
            extra,
        },
    }));
    let result = run(&network, "nodes").unwrap();
    let expected_branch = object(vec![
        (
            "blocks",
            JsonValue::Array(vec![
                object(vec![
                    ("kind", text("transform")),
                    ("label", text("Compressor")),
                    ("quantity", JsonValue::Number(Number::PosInt(1))),
                    ("type", text("Compressor")),
                ]),
                object(vec![
                    ("kind", text("transform")),
                    ("label", text("Pipe")),
                    ("quantity", JsonValue::Number(Number::PosInt(1))),
                    ("type", text("Pipe")),
                ]),
            ]),
        ),
        ("id", text("branch-1")),
        ("label", text("Test Branch")),
    ]);
    assert_eq!(
        result,
        JsonValue::Array(vec![
            expected_branch,
            JsonValue::Number(Number::PosInt(5))
        ])
    );
    assert_eq!(
        QueryExecutor::new(&network).execute_network_query("other"),
        Err(QueryError::InvalidType(
            "Unknown network collection: other".to_string()
        ))
    );
}

#[test]
fn evaluation_is_repeatable() {
    let network = five_blocks();
    let executor = QueryExecutor::new(&network);
    let query = parse_query_path("b/blocks/1:3[type=Compressor]").unwrap();
    let first = executor.execute(&query);
    let second = executor.execute(&query);
    assert_eq!(first, second);
}

#[test]
fn filter_values_lists_the_texts() {
    let query = parse_query_path("b/blocks[quantity>2]/0:1[type=Pipe]").unwrap();
    assert_eq!(
        query.filter_values(),
        vec!["Pipe".to_string(), "2".to_string()]
    );
    assert_eq!(QueryPath::Node("x".to_string()).filter_values(), Vec::<String>::new());
}
