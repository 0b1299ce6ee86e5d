//! The walk through the scopes.

use crate::parser::models::{Block, BranchNode, GroupNode};
use crate::scope::config::{
    copy_levels, general_order, Config, PropertyInheritanceRule, ScopeLevel,
};
use crate::value::{lookup, TomlValue};
use vstd::prelude::*;

verus! {

/// Looks properties up through the scopes that the settings give.
pub struct ScopeResolver {
    pub config: Config,
}

/// The order of scopes that a rule gives for blocks of type `block_type`:
/// the order for that type where the rule has one, else the rule's own.
pub open spec fn rule_chain(rule: PropertyInheritanceRule, block_type: Seq<char>) -> Seq<
    ScopeLevel,
> {
    match rule {
        PropertyInheritanceRule::Simple(scopes) => scopes@,
        PropertyInheritanceRule::Complex { inheritance, overrides } => match lookup(
            overrides.entries@,
            block_type,
        ) {
            Some(order) => order@,
            None => inheritance@,
        },
    }
}

/// The order of scopes that a rule gives where no block type is known.
pub open spec fn rule_base_chain(rule: PropertyInheritanceRule) -> Seq<ScopeLevel> {
    match rule {
        PropertyInheritanceRule::Simple(scopes) => scopes@,
        PropertyInheritanceRule::Complex { inheritance, overrides } => inheritance@,
    }
}

/// The order of scopes for `property` on a block of type `block_type`: by
/// the rule for the property where there is one, else the general order.
pub open spec fn scope_chain(config: Config, property: Seq<char>, block_type: Seq<char>) -> Seq<
    ScopeLevel,
> {
    match lookup(config.inheritance.rules.entries@, property) {
        Some(rule) => rule_chain(rule, block_type),
        None => config.inheritance.general@,
    }
}

/// The order of scopes for `property` where no block type is known.
pub open spec fn base_scope_chain(config: Config, property: Seq<char>) -> Seq<ScopeLevel> {
    match lookup(config.inheritance.rules.entries@, property) {
        Some(rule) => rule_base_chain(rule),
        None => config.inheritance.general@,
    }
}

/// What the scope `level` holds under `property`. A block without a group
/// has nothing at the group level.
pub open spec fn scope_store(
    config: Config,
    property: Seq<char>,
    block: Block,
    branch: BranchNode,
    group: Option<GroupNode>,
    level: ScopeLevel,
) -> Option<TomlValue> {
    match level {
        ScopeLevel::Block => block.extra.spec_get(property),
        ScopeLevel::Branch => branch.base.extra.spec_get(property),
        ScopeLevel::Group => match group {
            Some(g) => g.base.extra.spec_get(property),
            None => None,
        },
        ScopeLevel::Global => config.properties.spec_get(property),
    }
}

/// The first value found for `property` in the scopes `scopes[from..]`,
/// taken in their order, with the scope that holds it.
pub open spec fn resolve_from(
    config: Config,
    property: Seq<char>,
    block: Block,
    branch: BranchNode,
    group: Option<GroupNode>,
    scopes: Seq<ScopeLevel>,
    from: int,
) -> Option<(TomlValue, ScopeLevel)>
    decreases scopes.len() - from,
{
    if from < 0 || from >= scopes.len() {
        None
    } else {
        match scope_store(config, property, block, branch, group, scopes[from]) {
            Some(v) => Some((v, scopes[from])),
            None => resolve_from(config, property, block, branch, group, scopes, from + 1),
        }
    }
}

/// Whether an executable answer holds the same as the answer of the model.
pub open spec fn same_resolution(
    r: Option<(TomlValue, ScopeLevel)>,
    model: Option<(TomlValue, ScopeLevel)>,
) -> bool {
    match r {
        Some(found) => match model {
            Some(m) => found.0@ == m.0@ && found.1 == m.1,
            None => false,
        },
        None => model is None,
    }
}

impl ScopeResolver {
    /// A resolver for the given settings.
    pub fn new(config: Config) -> (r: Self)
        ensures
            r.config == config,
    {
        ScopeResolver { config }
    }

    /// The value of `property` for `block`, found in the scopes that the
    /// settings give for it.
    pub fn resolve_property(
        &self,
        property: &str,
        block: &Block,
        branch: &BranchNode,
        group: Option<&GroupNode>,
    ) -> (r: Option<TomlValue>)
        ensures
            ({
                let model = resolve_from(
                    self.config,
                    property@,
                    *block,
                    *branch,
                    deref_group(group),
                    scope_chain(self.config, property@, block.type_@),
                    0,
                );
                match r {
                    Some(v) => match model {
                        Some(m) => v@ == m.0@,
                        None => false,
                    },
                    None => model is None,
                }
            }),
    {
        match self.resolve_property_with_scope(property, block, branch, group) {
            Some((v, _)) => Some(v),
            None => None,
        }
    }

    /// The value of `property` for `block` and the scope that holds it.
    pub fn resolve_property_with_scope(
        &self,
        property: &str,
        block: &Block,
        branch: &BranchNode,
        group: Option<&GroupNode>,
    ) -> (r: Option<(TomlValue, ScopeLevel)>)
        ensures
            same_resolution(
                r,
                resolve_from(
                    self.config,
                    property@,
                    *block,
                    *branch,
                    deref_group(group),
                    scope_chain(self.config, property@, block.type_@),
                    0,
                ),
            ),
    {
        let chain = self.get_scope_chain(property, block.type_.as_str());
        self.resolve_property_with_explicit_scopes(property, block, branch, group, &chain)
    }

    /// The value of `property` for `block`, looked for in the given scopes
    /// and in their order, whatever the settings say.
    pub fn resolve_property_with_explicit_scopes(
        &self,
        property: &str,
        block: &Block,
        branch: &BranchNode,
        group: Option<&GroupNode>,
        explicit_scopes: &Vec<ScopeLevel>,
    ) -> (r: Option<(TomlValue, ScopeLevel)>)
        ensures
            same_resolution(
                r,
                resolve_from(
                    self.config,
                    property@,
                    *block,
                    *branch,
                    deref_group(group),
                    explicit_scopes@,
                    0,
                ),
            ),
    {
        let ghost g = deref_group(group);
        let mut i: usize = 0;
        while i < explicit_scopes.len()
            invariant
                i <= explicit_scopes.len(),
                g == deref_group(group),
                resolve_from(self.config, property@, *block, *branch, g, explicit_scopes@, 0)
                    == resolve_from(
                    self.config,
                    property@,
                    *block,
                    *branch,
                    g,
                    explicit_scopes@,
                    i as int,
                ),
            decreases explicit_scopes.len() - i,
        {
            let level = explicit_scopes[i];
            let found: Option<&TomlValue> = match level {
                ScopeLevel::Block => block.extra.get(property),
                ScopeLevel::Branch => branch.base.extra.get(property),
                ScopeLevel::Group => match group {
                    Some(grp) => grp.base.extra.get(property),
                    None => None,
                },
                ScopeLevel::Global => self.config.properties.get(property),
            };
            match found {
                Some(v) => {
                    return Some((v.clone(), level));
                },
                None => {},
            }
            i += 1;
        }
        None
    }

    /// The order of scopes for `property` on a block of type `block_type`.
    pub fn get_scope_chain(&self, property: &str, block_type: &str) -> (r: Vec<ScopeLevel>)
        ensures
            r@ == scope_chain(self.config, property@, block_type@),
    {
        match self.config.inheritance.rules.get(property) {
            Some(PropertyInheritanceRule::Simple(scopes)) => copy_levels(scopes),
            Some(PropertyInheritanceRule::Complex { inheritance, overrides }) => {
                match overrides.get(block_type) {
                    Some(order) => copy_levels(order),
                    None => copy_levels(inheritance),
                }
            },
            None => copy_levels(&self.config.inheritance.general),
        }
    }

    /// The order of scopes for `property`: for a block of the given type,
    /// or where no type is given, the order of the rule itself.
    pub fn get_scope_chain_for_property(&self, property: &str, block_type: Option<&str>) -> (r:
        Vec<ScopeLevel>)
        ensures
            r@ == match block_type {
                Some(t) => scope_chain(self.config, property@, t@),
                None => base_scope_chain(self.config, property@),
            },
    {
        match block_type {
            Some(t) => self.get_scope_chain(property, t),
            None => match self.config.inheritance.rules.get(property) {
                Some(PropertyInheritanceRule::Simple(scopes)) => copy_levels(scopes),
                Some(PropertyInheritanceRule::Complex { inheritance, overrides }) => copy_levels(
                    inheritance,
                ),
                None => copy_levels(&self.config.inheritance.general),
            },
        }
    }

    /// Whether the global scope defines `property`.
    pub fn has_global_property(&self, property: &str) -> (r: bool)
        ensures
            r == self.config.properties.has(property@),
    {
        self.config.properties.contains_key(property)
    }
}

/// The group behind an optional reference.
pub open spec fn deref_group(group: Option<&GroupNode>) -> Option<GroupNode> {
    match group {
        Some(g) => Some(*g),
        None => None,
    }
}

/// The cascade returns the value of the first scope in the order that
/// defines the property: every scope before it defines nothing, and where
/// nothing is returned no scope of the order defines it.
pub proof fn lemma_first_defined_scope_wins(
    config: Config,
    property: Seq<char>,
    block: Block,
    branch: BranchNode,
    group: Option<GroupNode>,
    scopes: Seq<ScopeLevel>,
    from: int,
)
    requires
        0 <= from <= scopes.len(),
    ensures
        match resolve_from(config, property, block, branch, group, scopes, from) {
            Some(found) => exists|k: int|
                from <= k < scopes.len() && scopes[k] == found.1 && scope_store(
                    config,
                    property,
                    block,
                    branch,
                    group,
                    #[trigger] scopes[k],
                ) == Some(found.0) && forall|j: int|
                    from <= j < k ==> scope_store(
                        config,
                        property,
                        block,
                        branch,
                        group,
                        #[trigger] scopes[j],
                    ) is None,
            None => forall|j: int|
                from <= j < scopes.len() ==> scope_store(
                    config,
                    property,
                    block,
                    branch,
                    group,
                    #[trigger] scopes[j],
                ) is None,
        },
    decreases scopes.len() - from,
{
    if from < scopes.len() {
        match scope_store(config, property, block, branch, group, scopes[from]) {
            Some(v) => {
                assert(scopes[from] == scopes[from]);
            },
            None => {
                lemma_first_defined_scope_wins(
                    config,
                    property,
                    block,
                    branch,
                    group,
                    scopes,
                    from + 1,
                );
            },
        }
    }
}

/// With the order from the block outwards, a property that the block
/// defines is taken from the block, whatever the other scopes hold.
pub proof fn lemma_block_value_wins(
    config: Config,
    property: Seq<char>,
    block: Block,
    branch: BranchNode,
    group: Option<GroupNode>,
)
    requires
        block.extra.spec_get(property) is Some,
    ensures
        resolve_from(config, property, block, branch, group, general_order(), 0) == Some(
            (block.extra.spec_get(property)->0, ScopeLevel::Block),
        ),
{
}

/// With the order from the block outwards, a property that neither the
/// block nor the branch defines, on a branch without a group, is taken from
/// the global scope: the group level is passed over.
pub proof fn lemma_falls_through_to_global(
    config: Config,
    property: Seq<char>,
    block: Block,
    branch: BranchNode,
)
    requires
        block.extra.spec_get(property) is None,
        branch.base.extra.spec_get(property) is None,
    ensures
        resolve_from(config, property, block, branch, None, general_order(), 0)
            == match config.properties.spec_get(property) {
            Some(v) => Some((v, ScopeLevel::Global)),
            None => None,
        },
{
    reveal_with_fuel(resolve_from, 5);
}

/// With the order from the block outwards, a property that the block does
/// not define is taken from the next scope that defines it.
pub proof fn lemma_falls_through_in_order(
    config: Config,
    property: Seq<char>,
    block: Block,
    branch: BranchNode,
    group: Option<GroupNode>,
)
    requires
        block.extra.spec_get(property) is None,
    ensures
        resolve_from(config, property, block, branch, group, general_order(), 0)
            == resolve_from(
            config,
            property,
            block,
            branch,
            group,
            seq![ScopeLevel::Branch, ScopeLevel::Group, ScopeLevel::Global],
            0,
        ),
{
    reveal_with_fuel(resolve_from, 5);
}

/// Scopes given with the call replace the configured order: with the
/// global scope alone, the global value is returned even where the block
/// defines the property too.
pub proof fn lemma_explicit_global_scope(
    config: Config,
    property: Seq<char>,
    block: Block,
    branch: BranchNode,
    group: Option<GroupNode>,
)
    ensures
        resolve_from(config, property, block, branch, group, seq![ScopeLevel::Global], 0)
            == match config.properties.spec_get(property) {
            Some(v) => Some((v, ScopeLevel::Global)),
            None => None,
        },
{
    reveal_with_fuel(resolve_from, 3);
}

} // verus!
