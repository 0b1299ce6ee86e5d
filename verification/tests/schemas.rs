use dagger::parser::models::{Block, BranchNode, Network, NodeBase, NodeData, Position};
use dagger::schema::registry::{PropertyMetadata, SchemaDefinition, SchemaRegistry};
use dagger::schema::validator::{
    count_issues, IssueSeverity, SchemaValidator, ValidationResult,
};
use dagger::value::{StringMap, TomlValue};
use std::path::PathBuf;

fn schema(block_type: &str, required: &[&str], optional: &[&str]) -> SchemaDefinition {
    SchemaDefinition {
        block_type: block_type.to_string(),
        version: "v1.0".to_string(),
        required_properties: required.iter().map(|s| s.to_string()).collect(),
        optional_properties: optional.iter().map(|s| s.to_string()).collect(),
        properties: StringMap::new(),
    }
}

fn registry() -> SchemaRegistry {
    let mut registry = SchemaRegistry::new(PathBuf::from("schemas"));
    let mut schemas = StringMap::new();
    schemas.insert(
        "Pipe".to_string(),
        schema("Pipe", &["length", "diameter"], &["material"]),
    );
    schemas.insert("Valve".to_string(), schema("Valve", &[], &[]));
    registry.add_library("v1.0", schemas);
    registry
}

fn block(type_: &str, properties: &[&str]) -> Block {
    let mut extra = StringMap::new();
    for p in properties {
        extra.insert(p.to_string(), TomlValue::Integer(1));
    }
    Block {
        quantity: None,
        type_: type_.to_string(),
        extra,
    }
}

fn issues(result: &ValidationResult) -> Vec<(IssueSeverity, String, Option<String>)> {
    result
        .issues
        .iter()
        .map(|i| (i.severity, i.message.clone(), i.property.clone()))
        .collect()
}

#[test]
fn registry_lookups() {
    let mut registry = registry();
    assert_eq!(registry.list_versions(), vec![&"v1.0".to_string()]);
    assert_eq!(
        registry.list_block_types("v1.0"),
        vec![&"Pipe".to_string(), &"Valve".to_string()]
    );
    assert!(registry.list_block_types("v2.0").is_empty());
    assert_eq!(
        registry.get_schema("v1.0", "Pipe").map(|s| s.required_properties.clone()),
        Some(vec!["length".to_string(), "diameter".to_string()])
    );
    assert!(registry.get_schema("v1.0", "Pump").is_none());
    assert!(registry.get_schema("v9", "Pipe").is_none());
    // A library loaded again replaces the earlier one of that version.
    let mut schemas = StringMap::new();
    schemas.insert("Pump".to_string(), schema("Pump", &[], &[]));
    registry.add_library("v1.0", schemas);
    assert_eq!(registry.list_versions().len(), 1);
    assert!(registry.get_schema("v1.0", "Pipe").is_none());
    assert!(registry.get_schema("v1.0", "Pump").is_some());
    assert_eq!(registry.schemas_dir, PathBuf::from("schemas"));
    let metadata = PropertyMetadata {
        dimension: Some("pressure".to_string()),
        default_unit: None,
        title: None,
    };
    assert_eq!(metadata.dimension.as_deref(), Some("pressure"));
}

#[test]
fn block_without_schema() {
    let validator = SchemaValidator::new(registry());
    let result = validator.validate_block(&block("Pump", &["x"]), "v1.0");
    assert_eq!(
        issues(&result),
        vec![(
            IssueSeverity::Warning,
            "No schema found for block type 'Pump' in version 'v1.0'".to_string(),
            None
        )]
    );
    assert!(result.is_valid());
    assert!(result.has_issues());
}

#[test]
fn missing_and_unknown_properties() {
    let validator = SchemaValidator::new(registry());
    let result = validator.validate_block(&block("Pipe", &["colour", "length", "material"]), "v1.0");
    assert_eq!(
        issues(&result),
        vec![
            (
                IssueSeverity::Error,
                "Required property 'diameter' is missing for block type 'Pipe'".to_string(),
                Some("diameter".to_string())
            ),
            (
                IssueSeverity::Warning,
                "Unknown property 'colour' for block type 'Pipe' (not in schema version 'v1.0')"
                    .to_string(),
                Some("colour".to_string())
            ),
        ]
    );
    assert!(!result.is_valid());
    assert_eq!(count_issues(&result, IssueSeverity::Error), 1);
    assert_eq!(count_issues(&result, IssueSeverity::Warning), 1);
    let fine = validator.validate_block(&block("Pipe", &["length", "diameter"]), "v1.0");
    assert!(fine.is_valid());
    assert!(!fine.has_issues());
}

#[test]
fn result_accounting() {
    let mut result = ValidationResult::default();
    assert!(result.is_valid());
    result.add_warning("w".to_string(), None);
    assert!(result.is_valid());
    result.add_error("e".to_string(), Some("p".to_string()));
    result.add_warning("w2".to_string(), None);
    assert!(!result.is_valid());
    assert_eq!(result.issues.len(), 3);
}

#[test]
fn every_block_of_the_network_is_checked() {
    let base = |id: &str| NodeBase {
        id: id.to_string(),
        type_: "branch".to_string(),
        label: None,
        position: Position { x: 0, y: 0 },
        parent_id: None,
        width: None,
        height: None,
        extra: StringMap::new(),
    };
    let network = Network {
        id: "n".to_string(),
        label: "N".to_string(),
        nodes: vec![
            NodeData::Branch(BranchNode {
                base: base("a"),
                outgoing: vec![],
                blocks: vec![block("Pipe", &["length", "diameter"]), block("Pump", &[])],
            }),
            NodeData::Branch(BranchNode {
                base: base("b"),
                outgoing: vec![],
                blocks: vec![block("Pipe", &[])],
            }),
        ],
        edges: vec![],
    };
    let validator = SchemaValidator::new(registry());
    let reports = validator.validate_network(&network, "v1.0");
    let summary: Vec<(String, usize, String, usize)> = reports
        .iter()
        .map(|r| {
            (
                r.node_id.clone(),
                r.block_index,
                r.block_type.clone(),
                r.result.issues.len(),
            )
        })
        .collect();
    assert_eq!(
        summary,
        vec![
            ("a".to_string(), 0, "Pipe".to_string(), 0),
            ("a".to_string(), 1, "Pump".to_string(), 1),
            ("b".to_string(), 0, "Pipe".to_string(), 2),
        ]
    );
}

#[test]
fn block_types_are_listed_once() {
    let mut registry = SchemaRegistry::new(PathBuf::from("schemas"));
    // A library put together by hand, with one block type twice.
    let schemas = StringMap {
        entries: vec![
            ("Pipe".to_string(), schema("Pipe", &["length"], &[])),
            ("Valve".to_string(), schema("Valve", &[], &[])),
            ("Pipe".to_string(), schema("Pipe", &[], &[])),
        ],
    };
    registry.add_library("v1.0", schemas);
    let listed = registry.list_block_types("v1.0");
    assert_eq!(listed, vec![&"Pipe".to_string(), &"Valve".to_string()]);
    for name in ["Pipe", "Valve", "Pump"] {
        assert_eq!(
            listed.iter().any(|t| t.as_str() == name),
            registry.get_schema("v1.0", name).is_some()
        );
    }
    // The first schema of a block type is the one that counts.
    assert_eq!(
        registry.get_schema("v1.0", "Pipe").map(|s| s.required_properties.len()),
        Some(1)
    );
    let mut map: StringMap<u32> = StringMap::new();
    map.insert("b".to_string(), 1);
    map.insert("a".to_string(), 2);
    map.insert("b".to_string(), 3);
    assert_eq!(map.names(), vec![&"b".to_string(), &"a".to_string()]);
    assert!(StringMap::<u32>::new().names().is_empty());
}
