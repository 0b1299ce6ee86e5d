//! The settings of the scope cascade.

use crate::value::{StringMap, TomlValue};
use vstd::prelude::*;

verus! {

/// A place where a property may be defined.
#[derive(Debug, Clone, Copy, PartialEq, Eq)]
pub enum ScopeLevel {
    Global,
    Group,
    Branch,
    Block,
}

/// The order of scopes for one property.
#[derive(Debug, Clone)]
pub enum PropertyInheritanceRule {
    /// One order for every block.
    Simple(Vec<ScopeLevel>),
    /// An order, and other orders for blocks of given types.
    Complex { inheritance: Vec<ScopeLevel>, overrides: StringMap<Vec<ScopeLevel>> },
}

/// The order of scopes: a general one, and rules for single properties.
#[derive(Debug, Clone)]
pub struct InheritanceConfig {
    pub general: Vec<ScopeLevel>,
    pub rules: StringMap<PropertyInheritanceRule>,
}

/// The settings: the properties of the global scope and the order of
/// scopes.
#[derive(Debug, Clone)]
pub struct Config {
    pub properties: StringMap<TomlValue>,
    pub inheritance: InheritanceConfig,
}

/// The general order of scopes where none is configured: from the block
/// outwards.
pub open spec fn general_order() -> Seq<ScopeLevel> {
    seq![ScopeLevel::Block, ScopeLevel::Branch, ScopeLevel::Group, ScopeLevel::Global]
}

/// The general order of scopes where none is configured.
pub fn default_general_inheritance() -> (r: Vec<ScopeLevel>)
    ensures
        r@ == general_order(),
{
    let mut r: Vec<ScopeLevel> = Vec::new();
    r.push(ScopeLevel::Block);
    r.push(ScopeLevel::Branch);
    r.push(ScopeLevel::Group);
    r.push(ScopeLevel::Global);
    assert(r@ =~= general_order());
    r
}

/// A copy of a list of scopes.
pub fn copy_levels(levels: &Vec<ScopeLevel>) -> (r: Vec<ScopeLevel>)
    ensures
        r@ == levels@,
{
    let mut r: Vec<ScopeLevel> = Vec::new();
    let mut i: usize = 0;
    while i < levels.len()
        invariant
            i <= levels.len(),
            r@ == levels@.subrange(0, i as int),
        decreases levels.len() - i,
    {
        r.push(levels[i]);
        i += 1;
        assert(r@ =~= levels@.subrange(0, i as int));
    }
    assert(levels@.subrange(0, levels.len() as int) =~= levels@);
    r
}

impl Default for InheritanceConfig {
    /// The general order from the block outwards, and no rules.
    fn default() -> (r: Self)
        ensures
            r.general@ == general_order(),
            r.rules.entries@.len() == 0,
    {
        InheritanceConfig { general: default_general_inheritance(), rules: StringMap::new() }
    }
}

impl Config {
    /// The settings with no global property, the general order from the
    /// block outwards, and no rules.
    pub fn empty() -> (r: Self)
        ensures
            r.properties.entries@.len() == 0,
            r.inheritance.general@ == general_order(),
            r.inheritance.rules.entries@.len() == 0,
    {
        Config {
            properties: StringMap::new(),
            inheritance: InheritanceConfig {
                general: default_general_inheritance(),
                rules: StringMap::new(),
            },
        }
    }
}

/// The scope that a name stands for, where the name is written in lower
/// case.
pub open spec fn level_of_name(name: Seq<char>) -> Option<ScopeLevel> {
    if name == "block"@ {
        Some(ScopeLevel::Block)
    } else if name == "branch"@ {
        Some(ScopeLevel::Branch)
    } else if name == "group"@ {
        Some(ScopeLevel::Group)
    } else if name == "global"@ {
        Some(ScopeLevel::Global)
    } else {
        None
    }
}

/// The name of a scope, in lower case.
pub open spec fn name_of_level(level: ScopeLevel) -> Seq<char> {
    match level {
        ScopeLevel::Block => "block"@,
        ScopeLevel::Branch => "branch"@,
        ScopeLevel::Group => "group"@,
        ScopeLevel::Global => "global"@,
    }
}

impl ScopeLevel {
    /// The scope that `name` stands for; `name` is taken as it is written.
    pub fn from_name(name: &str) -> (r: Option<ScopeLevel>)
        ensures
            r == level_of_name(name@),
    {
        let owned = name.to_owned();
        if owned == "block".to_owned() {
            Some(ScopeLevel::Block)
        } else if owned == "branch".to_owned() {
            Some(ScopeLevel::Branch)
        } else if owned == "group".to_owned() {
            Some(ScopeLevel::Group)
        } else if owned == "global".to_owned() {
            Some(ScopeLevel::Global)
        } else {
            None
        }
    }

    /// The name of the scope, in lower case.
    pub fn name(&self) -> (r: String)
        ensures
            r@ == name_of_level(*self),
    {
        match self {
            ScopeLevel::Block => "block".to_owned(),
            ScopeLevel::Branch => "branch".to_owned(),
            ScopeLevel::Group => "group".to_owned(),
            ScopeLevel::Global => "global".to_owned(),
        }
    }
}

} // verus!
