//! The account of one lookup through the scopes of a network.

use crate::parser::models::{branch_position, group_position, Block, BranchNode, GroupNode, Network};
use crate::scope::config::ScopeLevel;
use crate::scope::resolver::{
    deref_group, resolve_from, scope_chain, scope_store, ScopeResolver,
};
use crate::text::{decimal, decimal_text, join2, join3};
use crate::value::TomlValue;
use vstd::prelude::*;

verus! {

/// Why a block could not be found.
#[derive(Debug, Clone, PartialEq)]
pub enum LookupFailure {
    /// No branch has this identifier.
    NodeNotFound(String),
    /// The index, and the number of blocks that it does not fit.
    BlockOutOfRange(usize, usize),
}

/// The sentence that describes a failure.
pub open spec fn failure_message(f: LookupFailure) -> Seq<char> {
    match f {
        LookupFailure::NodeNotFound(id) => "Node '"@ + id@
            + "' not found or is not a branch node"@,
        LookupFailure::BlockOutOfRange(index, len) => "Block index "@ + decimal(index as nat)
            + " out of range ("@ + decimal(len as nat) + " blocks)"@,
    }
}

impl LookupFailure {
    /// The sentence that describes the failure.
    pub fn message(&self) -> (s: String)
        ensures
            s@ == failure_message(*self),
    {
        match self {
            LookupFailure::NodeNotFound(id) => join3(
                "Node '",
                id.as_str(),
                "' not found or is not a branch node",
            ),
            LookupFailure::BlockOutOfRange(index, len) => {
                let mut s = join2("Block index ", decimal_text(*index).as_str());
                s.append(" out of range (");
                s.append(decimal_text(*len).as_str());
                s.append(" blocks)");
                s
            },
        }
    }
}

/// What a lookup found and where it looked.
#[derive(Debug)]
pub struct Resolution {
    /// The type of the block.
    pub block_type: String,
    /// The scopes in the order in which they were tried.
    pub scope_chain: Vec<ScopeLevel>,
    /// The value, if a scope defines the property.
    pub value: Option<TomlValue>,
    /// For every scope of the chain, whether it defines the property;
    /// nothing for the group level of a branch without a group.
    pub checked: Vec<(ScopeLevel, Option<bool>)>,
}

/// Whether a scope defines a property; nothing for the group level where
/// there is no group.
pub open spec fn scope_defines(
    resolver: ScopeResolver,
    property: Seq<char>,
    block: Block,
    branch: BranchNode,
    group: Option<GroupNode>,
    level: ScopeLevel,
) -> Option<bool> {
    if level == ScopeLevel::Group && group is None {
        None
    } else {
        Some(scope_store(resolver.config, property, block, branch, group, level) is Some)
    }
}

/// The group that a branch names as its parent, if the network has it.
pub open spec fn parent_group(network: Network, branch: BranchNode) -> Option<GroupNode> {
    match branch.base.parent_id {
        Some(parent) => {
            let g = group_position(network.nodes@, parent@, 0);
            if g < network.nodes.len() {
                Some(network.nodes[g]->Group_0)
            } else {
                None
            }
        },
        None => None,
    }
}

/// Whether `r` is the account of the lookup of `property` for the block
/// `index` of `branch`.
pub open spec fn is_resolution_of(
    r: Resolution,
    network: Network,
    resolver: ScopeResolver,
    branch: BranchNode,
    index: int,
    property: Seq<char>,
) -> bool {
    let block = branch.blocks[index];
    let group = parent_group(network, branch);
    let chain = scope_chain(resolver.config, property, block.type_@);
    let found = resolve_from(resolver.config, property, block, branch, group, chain, 0);
    &&& r.block_type@ == block.type_@
    &&& r.scope_chain@ == chain
    &&& match r.value {
        Some(v) => match found {
            Some(f) => v@ == f.0@,
            None => false,
        },
        None => found is None,
    }
    &&& r.checked@.len() == chain.len()
    &&& forall|k: int|
        0 <= k < chain.len() ==> (#[trigger] r.checked@[k]) == (
            chain[k],
            scope_defines(resolver, property, block, branch, group, chain[k]),
        )
}

/// Looks `property` up for the block `block_index` of the branch
/// `node_id`, and tells where it looked.
pub fn resolve_in_network(
    network: &Network,
    resolver: &ScopeResolver,
    node_id: &str,
    block_index: usize,
    property: &str,
) -> (r: Result<Resolution, LookupFailure>)
    ensures
        ({
            let p = branch_position(network.nodes@, node_id@, 0);
            match r {
                Err(LookupFailure::NodeNotFound(id)) => p >= network.nodes.len() && id@
                    == node_id@,
                Err(LookupFailure::BlockOutOfRange(index, len)) => p < network.nodes.len()
                    && index == block_index && len == network.nodes[p]->Branch_0.blocks.len()
                    && block_index >= len,
                Ok(resolution) => p < network.nodes.len() && block_index
                    < network.nodes[p]->Branch_0.blocks.len() && is_resolution_of(
                    resolution,
                    *network,
                    *resolver,
                    network.nodes[p]->Branch_0,
                    block_index as int,
                    property@,
                ),
            }
        }),
{
    let branch = match network.find_branch(node_id) {
        Some(b) => b,
        None => {
            return Err(LookupFailure::NodeNotFound(node_id.to_owned()));
        },
    };
    if block_index >= branch.blocks.len() {
        return Err(LookupFailure::BlockOutOfRange(block_index, branch.blocks.len()));
    }
    let block = &branch.blocks[block_index];
    let group: Option<&GroupNode> = match &branch.base.parent_id {
        Some(parent) => network.find_group(parent.as_str()),
        None => None,
    };
    assert(deref_group(group) == parent_group(*network, *branch));
    let value = resolver.resolve_property(property, block, branch, group);
    let chain = resolver.get_scope_chain_for_property(property, Some(block.type_.as_str()));
    let mut checked: Vec<(ScopeLevel, Option<bool>)> = Vec::new();
    let mut k: usize = 0;
    while k < chain.len()
        invariant
            k <= chain.len(),
            checked.len() == k,
            forall|j: int|
                0 <= j < k ==> (#[trigger] checked@[j]) == (
                    chain[j],
                    scope_defines(
                        *resolver,
                        property@,
                        *block,
                        *branch,
                        deref_group(group),
                        chain[j],
                    ),
                ),
        decreases chain.len() - k,
    {
        let level = chain[k];
        let defined: Option<bool> = match level {
            ScopeLevel::Block => Some(block.extra.contains_key(property)),
            ScopeLevel::Branch => Some(branch.base.extra.contains_key(property)),
            ScopeLevel::Group => match group {
                Some(g) => Some(g.base.extra.contains_key(property)),
                None => None,
            },
            ScopeLevel::Global => Some(resolver.has_global_property(property)),
        };
        checked.push((level, defined));
        k += 1;
    }
    Ok(Resolution { block_type: block.type_.clone(), scope_chain: chain, value, checked })
}

} // verus!
