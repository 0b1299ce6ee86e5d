use dagger::parser::models::{
    Block, BranchNode, GroupNode, Network, NodeBase, NodeData, Position,
};
use dagger::query::executor::{scope_level_of, scope_levels_of, QueryError, QueryExecutor};
use dagger::query::parser::parse_query_path;
use dagger::scope::config::{
    default_general_inheritance, Config, InheritanceConfig, PropertyInheritanceRule, ScopeLevel,
};
use dagger::scope::registry::PropertyRegistry;
use dagger::scope::report::{resolve_in_network, LookupFailure};
use dagger::scope::resolver::ScopeResolver;
use dagger::value::{Float, JsonValue, Number, StringMap, TomlValue};

fn base(id: &str, type_: &str, parent: Option<&str>, extra: Vec<(&str, TomlValue)>) -> NodeBase {
    let mut map = StringMap::new();
    for (k, v) in extra {
        map.insert(k.to_string(), v);
    }
    NodeBase {
        id: id.to_string(),
        type_: type_.to_string(),
        label: None,
        position: Position { x: 0, y: 0 },
        parent_id: parent.map(|p| p.to_string()),
        width: None,
        height: None,
        extra: map,
    }
}

fn block(type_: &str, extra: Vec<(&str, TomlValue)>) -> Block {
    let mut map = StringMap::new();
    for (k, v) in extra {
        map.insert(k.to_string(), v);
    }
    Block {
        quantity: None,
        type_: type_.to_string(),
        extra: map,
    }
}

fn text(s: &str) -> TomlValue {
    TomlValue::String(s.to_string())
}

fn network(with_group: bool) -> Network {
    let branch = BranchNode {
        base: base(
            "branch-1",
            "branch",
            if with_group { Some("group-1") } else { None },
            vec![("material", text("from branch"))],
        ),
        outgoing: vec![],
        blocks: vec![
            block(
                "Compressor",
                vec![("ambientTemperature", text("from block"))],
            ),
            block("Pipe", vec![]),
        ],
    };
    let mut nodes = vec![NodeData::Branch(branch)];
    if with_group {
        nodes.push(NodeData::Group(GroupNode {
            base: base(
                "group-1",
                "labeledGroup",
                None,
                vec![
                    ("ambientTemperature", text("from group")),
                    ("material", text("from group")),
                    ("region", text("from group")),
                ],
            ),
        }));
    }
    Network {
        id: "n".to_string(),
        label: "N".to_string(),
        nodes,
        edges: vec![],
    }
}

fn config() -> Config {
    let mut config = Config::empty();
    config
        .properties
        .insert("ambientTemperature".to_string(), text("from global"));
    config.properties.insert("region".to_string(), text("from global"));
    config
}

fn parts(network: &Network) -> (&BranchNode, Option<&GroupNode>) {
    let branch = match &network.nodes[0] {
        NodeData::Branch(b) => b,
        _ => panic!("expected a branch"),
    };
    let group = network.nodes.get(1).map(|n| match n {
        NodeData::Group(g) => g,
        _ => panic!("expected a group"),
    });
    (branch, group)
}

#[test]
fn block_value_comes_first() {
    let network = network(true);
    let (branch, group) = parts(&network);
    let resolver = ScopeResolver::new(config());
    assert_eq!(
        resolver.resolve_property_with_scope("ambientTemperature", &branch.blocks[0], branch, group),
        Some((text("from block"), ScopeLevel::Block))
    );
}

#[test]
fn falls_through_to_the_next_scope_that_defines_it() {
    let network = network(true);
    let (branch, group) = parts(&network);
    let resolver = ScopeResolver::new(config());
    assert_eq!(
        resolver.resolve_property_with_scope("ambientTemperature", &branch.blocks[1], branch, group),
        Some((text("from group"), ScopeLevel::Group))
    );
    assert_eq!(
        resolver.resolve_property_with_scope("material", &branch.blocks[1], branch, group),
        Some((text("from branch"), ScopeLevel::Branch))
    );
    assert_eq!(
        resolver.resolve_property("region", &branch.blocks[1], branch, group),
        Some(text("from group"))
    );
    assert_eq!(
        resolver.resolve_property("nothing", &branch.blocks[1], branch, group),
        None
    );
}

#[test]
fn missing_group_is_passed_over() {
    let network = network(false);
    let (branch, group) = parts(&network);
    assert!(group.is_none());
    let resolver = ScopeResolver::new(config());
    assert_eq!(
        resolver.resolve_property_with_scope("ambientTemperature", &branch.blocks[1], branch, None),
        Some((text("from global"), ScopeLevel::Global))
    );
    assert_eq!(
        resolver.resolve_property_with_scope("region", &branch.blocks[0], branch, None),
        Some((text("from global"), ScopeLevel::Global))
    );
}

#[test]
fn explicit_scopes_replace_the_configured_order() {
    let network = network(true);
    let (branch, group) = parts(&network);
    let resolver = ScopeResolver::new(config());
    assert_eq!(
        resolver.resolve_property_with_explicit_scopes(
            "ambientTemperature",
            &branch.blocks[0],
            branch,
            group,
            &vec![ScopeLevel::Global]
        ),
        Some((text("from global"), ScopeLevel::Global))
    );
    assert_eq!(
        resolver.resolve_property_with_explicit_scopes(
            "ambientTemperature",
            &branch.blocks[0],
            branch,
            group,
            &vec![ScopeLevel::Group, ScopeLevel::Block]
        ),
        Some((text("from group"), ScopeLevel::Group))
    );
    assert_eq!(
        resolver.resolve_property_with_explicit_scopes(
            "ambientTemperature",
            &branch.blocks[0],
            branch,
            group,
            &vec![]
        ),
        None
    );
}

#[test]
fn explicit_global_scope_in_a_query() {
    let network = network(true);
    let resolver = ScopeResolver::new(config());
    let executor = QueryExecutor::with_scope_resolver(&network, &resolver);
    let query = parse_query_path("branch-1/blocks/0/ambientTemperature?scope=global").unwrap();
    assert_eq!(
        executor.execute(&query),
        Ok(JsonValue::String("from global".to_string()))
    );
    let query = parse_query_path("branch-1/blocks/0/ambientTemperature?scope=GLOBAL, Block").unwrap();
    assert_eq!(
        executor.execute(&query),
        Ok(JsonValue::String("from global".to_string()))
    );
    // Names that stand for no scope are dropped; with none left the
    // configured order is used.
    let query = parse_query_path("branch-1/blocks/0/ambientTemperature?scope=nowhere").unwrap();
    assert_eq!(
        executor.execute(&query),
        Ok(JsonValue::String("from block".to_string()))
    );
}

#[test]
fn scope_names_in_any_case() {
    let names = vec![
        "Block".to_string(),
        "BRANCH".to_string(),
        "bogus".to_string(),
        "group".to_string(),
        "gLoBaL".to_string(),
        "".to_string(),
    ];
    assert_eq!(
        scope_levels_of(&names),
        vec![
            ScopeLevel::Block,
            ScopeLevel::Branch,
            ScopeLevel::Group,
            ScopeLevel::Global
        ]
    );
    assert_eq!(scope_level_of("block"), Some(ScopeLevel::Block));
    assert_eq!(scope_level_of("Block"), Some(ScopeLevel::Block));
    assert_eq!(scope_level_of("GROUP"), Some(ScopeLevel::Group));
    assert_eq!(scope_level_of("blocks"), None);
    assert_eq!(ScopeLevel::from_name("Block"), None);
    assert_eq!(ScopeLevel::from_name("block"), Some(ScopeLevel::Block));
    assert_eq!(ScopeLevel::Global.name(), "global");
}

#[test]
fn property_falls_back_to_the_scopes() {
    let network = network(true);
    let resolver = ScopeResolver::new(config());
    let executor = QueryExecutor::with_scope_resolver(&network, &resolver);
    let run = |path: &str| executor.execute(&parse_query_path(path).unwrap());
    assert_eq!(
        run("branch-1/blocks/1/ambientTemperature"),
        Ok(JsonValue::String("from group".to_string()))
    );
    assert_eq!(
        run("branch-1/blocks/0/ambientTemperature"),
        Ok(JsonValue::String("from block".to_string()))
    );
    assert_eq!(
        run("branch-1/blocks/1/unknown"),
        Err(QueryError::PropertyNotFound(
            "Property 'unknown' not found in any scope".to_string()
        ))
    );
    // Without a resolver the property is simply not there.
    let plain = QueryExecutor::new(&network);
    assert_eq!(
        plain.execute(&parse_query_path("branch-1/blocks/1/ambientTemperature").unwrap()),
        Err(QueryError::PropertyNotFound("ambientTemperature".to_string()))
    );
}

#[test]
fn scope_lookup_needs_a_block() {
    let network = network(true);
    let resolver = ScopeResolver::new(config());
    let executor = QueryExecutor::with_scope_resolver(&network, &resolver);
    let run = |path: &str| executor.execute(&parse_query_path(path).unwrap());
    assert_eq!(
        run("branch-1/region?scope=global"),
        Err(QueryError::InvalidType(
            "Scope resolution requires a block context (use path like branch-4/blocks/0)"
                .to_string()
        ))
    );
    // The index is known before the property is read, so the lookup of `x`
    // falls back to the scopes of a branch named `group-1`, which is none.
    assert_eq!(
        run("group-1/x/0/y?scope=global"),
        Err(QueryError::NodeNotFound("group-1".to_string()))
    );
    assert_eq!(
        run("missing/blocks/0/y?scope=global"),
        Err(QueryError::NodeNotFound("missing".to_string()))
    );
}

#[test]
fn rules_override_the_general_order() {
    let mut overrides = StringMap::new();
    overrides.insert("Pipe".to_string(), vec![ScopeLevel::Global]);
    let mut rules = StringMap::new();
    rules.insert(
        "ambientTemperature".to_string(),
        PropertyInheritanceRule::Complex {
            inheritance: vec![ScopeLevel::Group, ScopeLevel::Block],
            overrides,
        },
    );
    rules.insert(
        "material".to_string(),
        PropertyInheritanceRule::Simple(vec![ScopeLevel::Group]),
    );
    let mut config = config();
    config.inheritance = InheritanceConfig {
        general: default_general_inheritance(),
        rules,
    };
    let registry = PropertyRegistry::new(config.clone());
    assert!(registry.has_inheritance_rule("material"));
    assert!(!registry.has_inheritance_rule("region"));
    assert_eq!(
        registry.get_global_property("region"),
        Some(&text("from global"))
    );
    assert_eq!(registry.get_global_property("material"), None);
    assert_eq!(
        registry.list_global_properties(),
        vec![&"ambientTemperature".to_string(), &"region".to_string()]
    );
    let resolver = ScopeResolver::new(config);
    assert!(resolver.has_global_property("region"));
    assert!(!resolver.has_global_property("material"));
    assert_eq!(
        resolver.get_scope_chain("ambientTemperature", "Pipe"),
        vec![ScopeLevel::Global]
    );
    assert_eq!(
        resolver.get_scope_chain("ambientTemperature", "Compressor"),
        vec![ScopeLevel::Group, ScopeLevel::Block]
    );
    assert_eq!(
        resolver.get_scope_chain_for_property("ambientTemperature", None),
        vec![ScopeLevel::Group, ScopeLevel::Block]
    );
    assert_eq!(
        resolver.get_scope_chain_for_property("material", Some("Pipe")),
        vec![ScopeLevel::Group]
    );
    assert_eq!(
        resolver.get_scope_chain_for_property("region", None),
        default_general_inheritance()
    );
    let network = network(true);
    let (branch, group) = parts(&network);
    assert_eq!(
        resolver.resolve_property_with_scope("ambientTemperature", &branch.blocks[0], branch, group),
        Some((text("from group"), ScopeLevel::Group))
    );
    assert_eq!(
        resolver.resolve_property_with_scope("ambientTemperature", &branch.blocks[1], branch, group),
        Some((text("from global"), ScopeLevel::Global))
    );
}

#[test]
fn default_order_is_from_the_block_outwards() {
    assert_eq!(
        default_general_inheritance(),
        vec![
            ScopeLevel::Block,
            ScopeLevel::Branch,
            ScopeLevel::Group,
            ScopeLevel::Global
        ]
    );
    let inheritance = InheritanceConfig::default();
    assert_eq!(inheritance.general, default_general_inheritance());
    assert_eq!(inheritance.rules.len(), 0);
    let empty = Config::empty();
    assert_eq!(empty.properties.len(), 0);
}

#[test]
fn lookup_report() {
    let network = network(false);
    let resolver = ScopeResolver::new(config());
    let found = resolve_in_network(&network, &resolver, "branch-1", 1, "region").unwrap();
    assert_eq!(found.block_type, "Pipe");
    assert_eq!(found.scope_chain, default_general_inheritance());
    assert_eq!(found.value, Some(text("from global")));
    assert_eq!(
        found.checked,
        vec![
            (ScopeLevel::Block, Some(false)),
            (ScopeLevel::Branch, Some(false)),
            (ScopeLevel::Group, None),
            (ScopeLevel::Global, Some(true)),
        ]
    );
    let missing = resolve_in_network(&network, &resolver, "branch-1", 0, "nothing").unwrap();
    assert_eq!(missing.value, None);
    let failure = resolve_in_network(&network, &resolver, "other", 0, "x").unwrap_err();
    assert_eq!(failure, LookupFailure::NodeNotFound("other".to_string()));
    assert_eq!(
        failure.message(),
        "Node 'other' not found or is not a branch node"
    );
    let failure = resolve_in_network(&network, &resolver, "branch-1", 7, "x").unwrap_err();
    assert_eq!(failure, LookupFailure::BlockOutOfRange(7, 2));
    assert_eq!(failure.message(), "Block index 7 out of range (2 blocks)");
}

#[test]
fn float_values_keep_their_bits() {
    let f = Float::from_bits(20.0f64.to_bits());
    let network = network(false);
    let mut config = Config::empty();
    config
        .properties
        .insert("ambientTemperature".to_string(), TomlValue::Float(f));
    let resolver = ScopeResolver::new(config);
    let executor = QueryExecutor::with_scope_resolver(&network, &resolver);
    let query = parse_query_path("branch-1/blocks/1/ambientTemperature?scope=global").unwrap();
    assert_eq!(
        executor.execute(&query),
        Ok(JsonValue::Number(Number::Float(f)))
    );
}
