use dagger::dim::formatter::{BaseUnit, FormatPlan, Quantity, UnitFormatter, UnitPreferences};
use dagger::dim::processor::{original_key_of, UnitProcessor, UnitReading};
use dagger::parser::models::{Block, Edge, EdgeData, Network, NodeBase, NodeData, GroupNode, BranchNode, Position};
use dagger::query::executor::{original_strings_of, QueryExecutor};
use dagger::schema::registry::{library_of, PropertyMetadata, SchemaDefinition, SchemaRegistry};
use dagger::value::{Float, JsonValue, Number, StringMap, TomlValue};
use std::path::PathBuf;

fn float(x: f64) -> Float {
    Float::from_bits(x.to_bits())
}

fn text(s: &str) -> TomlValue {
    TomlValue::String(s.to_string())
}

fn processor() -> UnitProcessor {
    let mut readings = StringMap::new();
    readings.insert(
        "100 bar".to_string(),
        UnitReading {
            value: float(1e7),
            dimensions: vec!["pressure".to_string()],
        },
    );
    readings.insert(
        "ten metres".to_string(),
        UnitReading {
            value: float(10.0),
            dimensions: vec!["length".to_string()],
        },
    );
    UnitProcessor::with_readings(readings)
}

fn map(pairs: Vec<(&str, TomlValue)>) -> StringMap<TomlValue> {
    let mut m = StringMap::new();
    for (k, v) in pairs {
        m.insert(k.to_string(), v);
    }
    m
}

#[test]
fn unit_strings_become_numbers() {
    let p = processor();
    assert_eq!(p.process_value(&text("100 bar")), Ok(TomlValue::Float(float(1e7))));
    // A unit string that was not read stays.
    assert_eq!(p.process_value(&text("5 kg")), Ok(text("5 kg")));
    // A text that was read but does not look like a unit string stays.
    assert_eq!(p.process_value(&text("ten metres")), Ok(text("ten metres")));
    assert_eq!(p.process_value(&text("not a unit")), Ok(text("not a unit")));
    assert_eq!(p.process_value(&TomlValue::Integer(42)), Ok(TomlValue::Integer(42)));
    assert_eq!(
        p.process_value(&TomlValue::Array(vec![
            text("100 bar"),
            text("not a unit"),
            TomlValue::Integer(42)
        ])),
        Ok(TomlValue::Array(vec![
            TomlValue::Float(float(1e7)),
            text("not a unit"),
            TomlValue::Integer(42)
        ]))
    );
    assert_eq!(
        UnitProcessor::new().process_value(&text("100 bar")),
        Ok(text("100 bar"))
    );
}

#[test]
fn tables_keep_the_text_beside_the_number() {
    let p = processor();
    let table = TomlValue::Table(vec![
        ("pressure".to_string(), text("100 bar")),
        ("name".to_string(), text("test")),
        (
            "inner".to_string(),
            TomlValue::Table(vec![("p".to_string(), text("100 bar"))]),
        ),
    ]);
    assert_eq!(
        p.process_value(&table),
        Ok(TomlValue::Table(vec![
            ("pressure".to_string(), TomlValue::Float(float(1e7))),
            ("_pressure_original".to_string(), text("100 bar")),
            ("name".to_string(), text("test")),
            (
                "inner".to_string(),
                TomlValue::Table(vec![
                    ("p".to_string(), TomlValue::Float(float(1e7))),
                    ("_p_original".to_string(), text("100 bar")),
                ])
            ),
        ]))
    );
    let extra = map(vec![("pressure", text("100 bar")), ("length", TomlValue::Integer(10))]);
    let processed = p.process_hashmap(&extra).unwrap();
    assert_eq!(
        processed.entries,
        vec![
            ("pressure".to_string(), TomlValue::Float(float(1e7))),
            ("_pressure_original".to_string(), text("100 bar")),
            ("length".to_string(), TomlValue::Integer(10)),
        ]
    );
    assert_eq!(original_key_of("pressure"), "_pressure_original");
}

#[test]
fn schema_decides_what_is_a_quantity() {
    let p = processor();
    let mut metadata = StringMap::new();
    let meta = |d: Option<&str>| PropertyMetadata {
        dimension: d.map(|s| s.to_string()),
        default_unit: None,
        title: None,
    };
    metadata.insert("inlet".to_string(), meta(Some("pressure")));
    metadata.insert("span".to_string(), meta(Some("length")));
    metadata.insert("wrong".to_string(), meta(Some("length")));
    metadata.insert("odd".to_string(), meta(Some("colour")));
    metadata.insert("count".to_string(), meta(Some("length")));
    metadata.insert("plain".to_string(), meta(None));
    let extra = map(vec![
        ("inlet", text("100 bar")),
        ("span", text("ten metres")),
        ("wrong", text("100 bar")),
        ("odd", text("100 bar")),
        ("count", TomlValue::Integer(3)),
        ("unread", text("5 kg")),
        ("plain", text("100 bar")),
        ("free", text("100 bar")),
    ]);
    let processed = p.process_hashmap_with_schema(&extra, &metadata).unwrap();
    assert_eq!(
        processed.entries,
        vec![
            ("inlet".to_string(), TomlValue::Float(float(1e7))),
            ("_inlet_original".to_string(), text("100 bar")),
            ("span".to_string(), TomlValue::Float(float(10.0))),
            ("_span_original".to_string(), text("ten metres")),
            ("wrong".to_string(), text("100 bar")),
            ("odd".to_string(), text("100 bar")),
            ("count".to_string(), TomlValue::Integer(3)),
            ("unread".to_string(), text("5 kg")),
            ("plain".to_string(), TomlValue::Float(float(1e7))),
            ("_plain_original".to_string(), text("100 bar")),
            ("free".to_string(), TomlValue::Float(float(1e7))),
            ("_free_original".to_string(), text("100 bar")),
        ]
    );
}

fn block() -> Block {
    Block {
        quantity: Some(2),
        type_: "Pipe".to_string(),
        extra: map(vec![
            ("pressure", TomlValue::Float(float(1e7))),
            ("_pressure_original", text("100 bar")),
            ("length", TomlValue::Integer(10)),
            ("_length_original", TomlValue::Integer(1)),
            ("note", text("n")),
        ]),
    }
}

#[test]
fn originals_of_a_block() {
    let originals = original_strings_of(&block());
    assert_eq!(
        originals.entries,
        vec![("_pressure_original".to_string(), "100 bar".to_string())]
    );
}

#[test]
fn original_strings_are_left_out_of_a_block() {
    let network = Network {
        id: "n".to_string(),
        label: "N".to_string(),
        nodes: vec![NodeData::Branch(BranchNode {
            base: NodeBase {
                id: "b".to_string(),
                type_: "branch".to_string(),
                label: None,
                position: Position { x: 0, y: 0 },
                parent_id: Some("g".to_string()),
                width: None,
                height: None,
                extra: StringMap::new(),
            },
            outgoing: vec![],
            blocks: vec![block()],
        })],
        edges: vec![],
    };
    let executor = QueryExecutor::new(&network);
    let shown = executor
        .execute(&dagger::query::parser::parse_query_path("b/blocks/0").unwrap())
        .unwrap();
    let names: Vec<&str> = shown
        .as_object()
        .unwrap()
        .iter()
        .map(|(k, _)| k.as_str())
        .collect();
    assert_eq!(names, vec!["type", "quantity", "pressure", "length", "note"]);
    assert_eq!(
        executor
            .execute(&dagger::query::parser::parse_query_path("b/parentId").unwrap())
            .unwrap(),
        JsonValue::String("g".to_string())
    );
}

#[test]
fn plan_of_a_conversion() {
    let mut schemas = Vec::new();
    let mut properties = StringMap::new();
    properties.insert(
        "length".to_string(),
        PropertyMetadata {
            dimension: Some("length".to_string()),
            default_unit: Some("km".to_string()),
            title: None,
        },
    );
    properties.insert(
        "note".to_string(),
        PropertyMetadata {
            dimension: None,
            default_unit: Some("x".to_string()),
            title: None,
        },
    );
    schemas.push(SchemaDefinition {
        block_type: "Pipe".to_string(),
        version: "v1".to_string(),
        required_properties: vec![],
        optional_properties: vec![],
        properties,
    });
    let mut registry = SchemaRegistry::new(PathBuf::from("s"));
    registry.add_library("v1", library_of(schemas));
    let mut preferences = UnitPreferences::default();
    preferences
        .query_overrides
        .insert("pressure".to_string(), "psi".to_string());
    let network = Network {
        id: "n".to_string(),
        label: "N".to_string(),
        nodes: vec![],
        edges: vec![],
    };
    let executor =
        QueryExecutor::with_unit_preferences(&network, None, preferences, Some(&registry), Some("v1"));
    let b = block();
    let originals = original_strings_of(&b);
    let pressure = JsonValue::Number(Number::Float(float(1e7)));
    assert_eq!(
        executor.plan_block_property(&b, "pressure", &pressure, &originals),
        FormatPlan::Convert {
            quantity: Quantity::Number(Number::Float(float(1e7))),
            base: BaseUnit::OfOriginal("100 bar".to_string()),
            target: "psi".to_string(),
        }
    );
    let length = JsonValue::Number(Number::PosInt(10));
    assert_eq!(
        executor.plan_block_property(&b, "length", &length, &originals),
        FormatPlan::Convert {
            quantity: Quantity::Number(Number::PosInt(10)),
            base: BaseUnit::Known("m".to_string()),
            target: "km".to_string(),
        }
    );
    let note = JsonValue::String("n".to_string());
    assert_eq!(
        executor.plan_block_property(&b, "note", &note, &originals),
        FormatPlan::Keep
    );
    assert_eq!(
        executor.plan_block_property(&b, "other", &note, &originals),
        FormatPlan::Keep
    );
    assert_eq!(
        executor.plan_block_property(&b, "length", &JsonValue::Bool(true), &originals),
        FormatPlan::Keep
    );
    assert_eq!(
        executor.plan_block_property(&b, "length", &JsonValue::String("12".to_string()), &originals),
        FormatPlan::Convert {
            quantity: Quantity::Text("12".to_string()),
            base: BaseUnit::Known("m".to_string()),
            target: "km".to_string(),
        }
    );
    assert!(executor.property_metadata("Pipe", "length").is_some());
    assert!(executor.property_metadata("Pipe", "width").is_none());
    assert!(executor.property_metadata("Valve", "length").is_none());
    let formatter = UnitFormatter::default();
    assert_eq!(
        formatter.format_property(&length, Some("0.01 km".to_string())),
        JsonValue::String("0.01 km".to_string())
    );
    assert_eq!(formatter.format_property(&length, None), length);
    assert_eq!(
        formatter.plan_property("x", &length, None, &UnitPreferences::default(), None),
        FormatPlan::Keep
    );
}

#[test]
fn later_schema_of_a_type_replaces_the_earlier() {
    let schema = |version: &str| SchemaDefinition {
        block_type: "Pipe".to_string(),
        version: version.to_string(),
        required_properties: vec![],
        optional_properties: vec![],
        properties: StringMap::new(),
    };
    let library = library_of(vec![schema("first"), schema("second")]);
    assert_eq!(library.len(), 1);
    assert_eq!(library.get("Pipe").map(|s| s.version.as_str()), Some("second"));
    assert_eq!(library_of(vec![]).len(), 0);
}

#[test]
fn nodes_and_edges_by_their_ends() {
    let base = |id: &str, type_: &str| NodeBase {
        id: id.to_string(),
        type_: type_.to_string(),
        label: None,
        position: Position { x: 0, y: 0 },
        parent_id: None,
        width: None,
        height: None,
        extra: StringMap::new(),
    };
    let edge = |s: &str, t: &str| Edge {
        id: format!("{}_{}", s, t),
        source: s.to_string(),
        target: t.to_string(),
        data: EdgeData { weight: 1 },
    };
    let network = Network {
        id: "n".to_string(),
        label: "N".to_string(),
        nodes: vec![
            NodeData::Group(GroupNode { base: base("g1", "labeledGroup") }),
            NodeData::Branch(BranchNode {
                base: base("b", "branch"),
                outgoing: vec![],
                blocks: vec![],
            }),
            NodeData::Group(GroupNode { base: base("g2", "labeledGroup") }),
        ],
        edges: vec![edge("a", "b"), edge("a", "c"), edge("b", "c")],
    };
    let ids = |nodes: Vec<&NodeData>| nodes.iter().map(|n| n.id().to_string()).collect::<Vec<_>>();
    assert_eq!(ids(network.get_nodes(None)), vec!["g1", "b", "g2"]);
    assert_eq!(ids(network.get_nodes(Some("labeledGroup"))), vec!["g1", "g2"]);
    assert_eq!(ids(network.get_nodes(Some("none"))), Vec::<String>::new());
    let names = |edges: Vec<&Edge>| edges.iter().map(|e| e.id.clone()).collect::<Vec<_>>();
    assert_eq!(names(network.get_edges(None, None)), vec!["a_b", "a_c", "b_c"]);
    assert_eq!(names(network.get_edges(Some("a"), None)), vec!["a_b", "a_c"]);
    assert_eq!(names(network.get_edges(None, Some("c"))), vec!["a_c", "b_c"]);
    assert_eq!(names(network.get_edges(Some("a"), Some("c"))), vec!["a_c"]);
    assert_eq!(names(network.get_edges(Some("c"), None)), Vec::<String>::new());
    assert!(network.find_node("g2").is_some());
    assert!(network.find_branch("g2").is_none());
    assert!(network.find_group("g2").is_some());
    assert!(network.find_group("b").is_none());
}
