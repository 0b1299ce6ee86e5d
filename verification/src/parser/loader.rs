//! The making of a network from its nodes.

use crate::parser::models::{node_position, BranchNode, Edge, EdgeData, Network, NodeData};
use crate::parser::validation::{ValidationIssue, ValidationResult};
use crate::text::{decimal, decimal_text, join2, join3};
use vstd::prelude::*;

verus! {

/// What an edge holds: identifier, source, target and weight.
pub type EdgeView = (Seq<char>, Seq<char>, Seq<char>, u32);

/// What an edge holds.
pub open spec fn edge_view(e: Edge) -> EdgeView {
    (e.id@, e.source@, e.target@, e.data.weight)
}

/// What a list of edges holds.
pub open spec fn edges_view(edges: Seq<Edge>) -> Seq<EdgeView> {
    edges.map_values(|e: Edge| edge_view(e))
}

/// The edge for the connection `k` of a branch: from the branch to the
/// target, named by both.
pub open spec fn edge_of(branch: BranchNode, k: int) -> EdgeView {
    (
        branch.base.id@ + "_"@ + branch.outgoing[k].target@,
        branch.base.id@,
        branch.outgoing[k].target@,
        branch.outgoing[k].weight,
    )
}

/// The edges for the connections of a branch, in their order.
pub open spec fn branch_edges(branch: BranchNode) -> Seq<EdgeView> {
    Seq::new(branch.outgoing.len() as nat, |k: int| edge_of(branch, k))
}

/// The edges of the first `n` nodes, in the order of the nodes.
pub open spec fn edges_upto(nodes: Seq<NodeData>, n: int) -> Seq<EdgeView>
    decreases n,
{
    if n <= 0 || n > nodes.len() {
        Seq::empty()
    } else {
        match nodes[n - 1] {
            NodeData::Branch(branch) => edges_upto(nodes, n - 1) + branch_edges(branch),
            _ => edges_upto(nodes, n - 1),
        }
    }
}

/// What a warning says and where.
pub type WarningView = (Seq<char>, Option<Seq<char>>);

/// What a warning says and where.
pub open spec fn warning_view(issue: ValidationIssue) -> WarningView {
    (
        issue.message@,
        match issue.location {
            Some(l) => Some(l@),
            None => None,
        },
    )
}

/// What a list of warnings says.
pub open spec fn warnings_view(issues: Seq<ValidationIssue>) -> Seq<WarningView> {
    issues.map_values(|i: ValidationIssue| warning_view(i))
}

/// Whether a node of the list has the identifier `id`.
pub open spec fn has_node(nodes: Seq<NodeData>, id: Seq<char>) -> bool {
    node_position(nodes, id, 0) < nodes.len()
}

/// The warning for a connection whose target is no node.
pub open spec fn target_warning(branch: BranchNode, k: int) -> WarningView {
    (
        "Outgoing target '"@ + branch.outgoing[k].target@ + "' does not exist"@,
        Some(branch.base.id@ + "/outgoing["@ + decimal(k as nat) + "]/target"@),
    )
}

/// The warnings for those of the first `k` connections of a branch whose
/// target is no node.
pub open spec fn target_warnings(nodes: Seq<NodeData>, branch: BranchNode, k: int) -> Seq<
    WarningView,
>
    decreases k,
{
    if k <= 0 || k > branch.outgoing.len() {
        Seq::empty()
    } else if has_node(nodes, branch.outgoing[k - 1].target@) {
        target_warnings(nodes, branch, k - 1)
    } else {
        target_warnings(nodes, branch, k - 1).push(target_warning(branch, k - 1))
    }
}

/// The warning for a node whose parent is no node; nothing where the node
/// names no parent or the parent is there.
pub open spec fn parent_warnings(nodes: Seq<NodeData>, node: NodeData) -> Seq<WarningView> {
    match node.spec_base().parent_id {
        Some(parent) => if has_node(nodes, parent@) {
            Seq::empty()
        } else {
            seq![
                (
                    "Parent ID '"@ + parent@ + "' does not exist"@,
                    Some(node.spec_base().id@ + "/parentId"@),
                ),
            ]
        },
        None => Seq::empty(),
    }
}

/// The warnings of one node: for a branch those of its connections, then
/// for every node the one of its parent.
pub open spec fn node_warnings(nodes: Seq<NodeData>, node: NodeData) -> Seq<WarningView> {
    match node {
        NodeData::Branch(branch) => target_warnings(
            nodes,
            branch,
            branch.outgoing.len() as int,
        ) + parent_warnings(nodes, node),
        _ => parent_warnings(nodes, node),
    }
}

/// The warnings of the first `n` nodes, in the order of the nodes.
pub open spec fn warnings_upto(nodes: Seq<NodeData>, n: int) -> Seq<WarningView>
    decreases n,
{
    if n <= 0 || n > nodes.len() {
        Seq::empty()
    } else {
        warnings_upto(nodes, n - 1) + node_warnings(nodes, nodes[n - 1])
    }
}

/// Whether a node of the list has the identifier `id`.
pub fn contains_node(nodes: &Vec<NodeData>, id: &str) -> (r: bool)
    ensures
        r == has_node(nodes@, id@),
{
    let wanted = id.to_owned();
    let mut i: usize = 0;
    while i < nodes.len()
        invariant
            i <= nodes.len(),
            wanted@ == id@,
            node_position(nodes@, id@, 0) == node_position(nodes@, id@, i as int),
        decreases nodes.len() - i,
    {
        if nodes[i].base().id == wanted {
            return true;
        }
        i += 1;
    }
    false
}

/// Makes the network of the given nodes. Every connection of a branch
/// becomes an edge. A connection whose target is no node, and a parent
/// that is no node, are reported as warnings; the errors stay as they are.
pub fn build_network(nodes: Vec<NodeData>, validation: &mut ValidationResult) -> (network: Network)
    ensures
        network.nodes == nodes,
        network.id@ == "preset-1"@,
        network.label@ == "Preset 1"@,
        edges_view(network.edges@) == edges_upto(nodes@, nodes.len() as int),
        final(validation).errors@ == old(validation).errors@,
        warnings_view(final(validation).warnings@) == warnings_view(old(validation).warnings@)
            + warnings_upto(nodes@, nodes.len() as int),
{
    let mut edges: Vec<Edge> = Vec::new();
    let ghost start = warnings_view(validation.warnings@);
    assert(edges_view(edges@) =~= Seq::<EdgeView>::empty());
    assert(start + Seq::<WarningView>::empty() =~= start);
    let mut i: usize = 0;
    while i < nodes.len()
        invariant
            i <= nodes.len(),
            start == warnings_view(old(validation).warnings@),
            validation.errors@ == old(validation).errors@,
            edges_view(edges@) == edges_upto(nodes@, i as int),
            warnings_view(validation.warnings@) == start + warnings_upto(nodes@, i as int),
        decreases nodes.len() - i,
    {
        let node = &nodes[i];
        let ghost edges_before = edges_view(edges@);
        let ghost warnings_before = warnings_view(validation.warnings@);
        match node {
            NodeData::Branch(branch) => {
                assert(edges_before + Seq::<EdgeView>::empty() =~= edges_before);
                assert(warnings_before + Seq::<WarningView>::empty() =~= warnings_before);
                let mut k: usize = 0;
                while k < branch.outgoing.len()
                    invariant
                        k <= branch.outgoing.len(),
                        validation.errors@ == old(validation).errors@,
                        edges_view(edges@) == edges_before + branch_edges(*branch).subrange(
                            0,
                            k as int,
                        ),
                        warnings_view(validation.warnings@) == warnings_before + target_warnings(
                            nodes@,
                            *branch,
                            k as int,
                        ),
                    decreases branch.outgoing.len() - k,
                {
                    let outgoing = &branch.outgoing[k];
                    let edge_id = join3(branch.base.id.as_str(), "_", outgoing.target.as_str());
                    if !contains_node(&nodes, outgoing.target.as_str()) {
                        let message = join3(
                            "Outgoing target '",
                            outgoing.target.as_str(),
                            "' does not exist",
                        );
                        let mut location = join2(branch.base.id.as_str(), "/outgoing[");
                        location.append(decimal_text(k).as_str());
                        location.append("]/target");
                        let ghost before = warnings_view(validation.warnings@);
                        validation.add_warning(message, Some(location));
                        assert(warnings_view(validation.warnings@) =~= before.push(
                            target_warning(*branch, k as int),
                        ));
                    }
                    assert(warnings_view(validation.warnings@) =~= warnings_before
                        + target_warnings(nodes@, *branch, k + 1));
                    let ghost before_edges = edges_view(edges@);
                    edges.push(
                        Edge {
                            id: edge_id,
                            source: branch.base.id.clone(),
                            target: outgoing.target.clone(),
                            data: EdgeData { weight: outgoing.weight },
                        },
                    );
                    assert(edges_view(edges@) =~= before_edges.push(edge_of(*branch, k as int)));
                    assert(edges_view(edges@) =~= edges_before + branch_edges(*branch).subrange(
                        0,
                        k + 1,
                    ));
                    k += 1;
                }
                assert(branch_edges(*branch).subrange(0, branch.outgoing.len() as int)
                    =~= branch_edges(*branch));
            },
            _ => {},
        }
        let ghost after_targets = warnings_view(validation.warnings@);
        match &node.base().parent_id {
            Some(parent) => {
                if !contains_node(&nodes, parent.as_str()) {
                    let message = join3("Parent ID '", parent.as_str(), "' does not exist");
                    let location = join2(node.id(), "/parentId");
                    validation.add_warning(message, Some(location));
                    assert(warnings_view(validation.warnings@) =~= after_targets
                        + parent_warnings(nodes@, *node));
                } else {
                    assert(after_targets + parent_warnings(nodes@, *node) =~= after_targets);
                }
            },
            None => {
                assert(after_targets + parent_warnings(nodes@, *node) =~= after_targets);
            },
        }
        assert(warnings_view(validation.warnings@) =~= warnings_before + node_warnings(
            nodes@,
            *node,
        ));
        assert(warnings_view(validation.warnings@) =~= start + warnings_upto(nodes@, i + 1));
        i += 1;
    }
    Network { id: "preset-1".to_owned(), label: "Preset 1".to_owned(), nodes, edges }
}

} // verus!
