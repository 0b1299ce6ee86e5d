use dagger::parser::loader::{build_network, contains_node};
use dagger::parser::models::{
    Block, BranchNode, GeographicAnchorNode, GroupNode, ImageNode, NodeBase, NodeData, Outgoing,
    Position,
};
use dagger::parser::validation::{IssueSeverity, ValidationResult};
use dagger::value::StringMap;

fn base(id: &str, parent: Option<&str>) -> NodeBase {
    NodeBase {
        id: id.to_string(),
        type_: "t".to_string(),
        label: None,
        position: Position { x: 3, y: 4 },
        parent_id: parent.map(|p| p.to_string()),
        width: None,
        height: None,
        extra: StringMap::new(),
    }
}

fn branch(id: &str, parent: Option<&str>, targets: &[(&str, u32)]) -> NodeData {
    NodeData::Branch(BranchNode {
        base: base(id, parent),
        outgoing: targets
            .iter()
            .map(|(t, w)| Outgoing {
                target: t.to_string(),
                weight: *w,
            })
            .collect(),
        blocks: vec![Block {
            quantity: None,
            type_: "Pipe".to_string(),
            extra: StringMap::new(),
        }],
    })
}

#[test]
fn edges_and_warnings() {
    let nodes = vec![
        branch("a", Some("g"), &[("b", 1), ("zz", 2)]),
        NodeData::Group(GroupNode { base: base("g", None) }),
        branch("b", Some("nowhere"), &[("a", 7)]),
        NodeData::GeographicAnchor(GeographicAnchorNode {
            base: base("anchor", Some("gone")),
        }),
    ];
    let mut validation = ValidationResult::new();
    validation.add_error("earlier".to_string(), None);
    let network = build_network(nodes, &mut validation);
    assert_eq!(network.id, "preset-1");
    assert_eq!(network.label, "Preset 1");
    assert_eq!(network.nodes.len(), 4);
    let edges: Vec<(String, String, String, u32)> = network
        .edges
        .iter()
        .map(|e| (e.id.clone(), e.source.clone(), e.target.clone(), e.data.weight))
        .collect();
    assert_eq!(
        edges,
        vec![
            ("a_b".to_string(), "a".to_string(), "b".to_string(), 1),
            ("a_zz".to_string(), "a".to_string(), "zz".to_string(), 2),
            ("b_a".to_string(), "b".to_string(), "a".to_string(), 7),
        ]
    );
    assert_eq!(validation.errors.len(), 1);
    let warnings: Vec<(String, Option<String>)> = validation
        .warnings
        .iter()
        .map(|w| {
            assert_eq!(w.severity, IssueSeverity::Warning);
            (w.message.clone(), w.location.clone())
        })
        .collect();
    assert_eq!(
        warnings,
        vec![
            (
                "Outgoing target 'zz' does not exist".to_string(),
                Some("a/outgoing[1]/target".to_string())
            ),
            (
                "Parent ID 'nowhere' does not exist".to_string(),
                Some("b/parentId".to_string())
            ),
            (
                "Parent ID 'gone' does not exist".to_string(),
                Some("anchor/parentId".to_string())
            ),
        ]
    );
    assert!(contains_node(&network.nodes, "anchor"));
    assert!(!contains_node(&network.nodes, "zz"));
}

#[test]
fn validation_result_accounting() {
    let mut result = ValidationResult::default();
    assert!(result.is_valid());
    assert!(!result.has_issues());
    assert_eq!(result.report(), "");
    result.add_warning("careful".to_string(), Some("here".to_string()));
    assert!(result.is_valid());
    assert!(result.has_issues());
    result.add_error("broken".to_string(), None);
    result.add_error("worse".to_string(), Some("there".to_string()));
    assert!(!result.is_valid());
    assert_eq!(result.errors.len(), 2);
    assert_eq!(result.errors[0].severity, IssueSeverity::Error);
    assert_eq!(result.warnings.len(), 1);
    assert_eq!(
        result.report(),
        "Errors:\n  broken\n  [there] worse\nWarnings:\n  [here] careful\n"
    );
}

#[test]
fn node_accessors() {
    let node = NodeData::Image(ImageNode { base: base("pic", None) });
    assert_eq!(node.id(), "pic");
    assert_eq!(node.base().position, Position { x: 3, y: 4 });
    assert_eq!(node.base().label_display(), "pic");
    let mut labelled = base("n", None);
    labelled.label = Some("Shown".to_string());
    assert_eq!(labelled.label_display(), "Shown");
    let block = Block {
        quantity: None,
        type_: "Pipe".to_string(),
        extra: StringMap::new(),
    };
    assert_eq!(block.quantity(), 1);
    let block = Block {
        quantity: Some(4),
        type_: "Pipe".to_string(),
        extra: StringMap::new(),
    };
    assert_eq!(block.quantity(), 4);
}
