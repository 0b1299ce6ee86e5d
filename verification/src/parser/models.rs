//! The network model: typed nodes, the blocks of a branch, and the edges
//! between nodes.

use crate::value::{StringMap, TomlValue};
use vstd::prelude::*;

verus! {

/// Where a node stands on the canvas.
#[derive(Debug, Clone, Copy, PartialEq, Eq)]
pub struct Position {
    pub x: i32,
    pub y: i32,
}

/// A connection that leaves a branch.
#[derive(Debug, Clone)]
pub struct Outgoing {
    pub target: String,
    pub weight: u32,
}

/// One element of a branch: a type tag, an optional quantity, and its own
/// properties.
#[derive(Debug, Clone)]
pub struct Block {
    pub quantity: Option<u32>,
    pub type_: String,
    pub extra: StringMap<TomlValue>,
}

impl Block {
    /// The quantity, which is 1 where none is given.
    pub fn quantity(&self) -> (r: u32)
        ensures
            r == self.spec_quantity(),
    {
        match self.quantity {
            Some(q) => q,
            None => 1,
        }
    }

    /// The quantity, which is 1 where none is given.
    pub open spec fn spec_quantity(&self) -> u32 {
        match self.quantity {
            Some(q) => q,
            None => 1,
        }
    }
}

/// What every node has: an identifier, a type tag, a place, and an
/// open-ended set of properties.
#[derive(Debug, Clone)]
pub struct NodeBase {
    pub id: String,
    pub type_: String,
    pub label: Option<String>,
    pub position: Position,
    pub parent_id: Option<String>,
    pub width: Option<u32>,
    pub height: Option<u32>,
    pub extra: StringMap<TomlValue>,
}

impl NodeBase {
    /// The label to show: the label itself, or the identifier where there
    /// is no label.
    pub open spec fn spec_label_display(&self) -> Seq<char> {
        match self.label {
            Some(label) => label@,
            None => self.id@,
        }
    }

    /// The label to show: the label itself, or the identifier where there
    /// is no label.
    pub fn label_display(&self) -> (r: String)
        ensures
            r@ == self.spec_label_display(),
    {
        match &self.label {
            Some(label) => label.clone(),
            None => self.id.clone(),
        }
    }
}

/// A sequence of blocks with connections to other nodes.
#[derive(Debug, Clone)]
pub struct BranchNode {
    pub base: NodeBase,
    pub outgoing: Vec<Outgoing>,
    pub blocks: Vec<Block>,
}

/// A container that other nodes name as their parent.
#[derive(Debug, Clone)]
pub struct GroupNode {
    pub base: NodeBase,
}

/// A point of reference on a map.
#[derive(Debug, Clone)]
pub struct GeographicAnchorNode {
    pub base: NodeBase,
}

/// A window onto a map.
#[derive(Debug, Clone)]
pub struct GeographicWindowNode {
    pub base: NodeBase,
}

/// A picture on the canvas.
#[derive(Debug, Clone)]
pub struct ImageNode {
    pub base: NodeBase,
}

/// A node of the network.
#[derive(Debug, Clone)]
pub enum NodeData {
    Branch(BranchNode),
    Group(GroupNode),
    GeographicAnchor(GeographicAnchorNode),
    GeographicWindow(GeographicWindowNode),
    Image(ImageNode),
}

impl NodeData {
    /// What the node has in common with every other node.
    pub open spec fn spec_base(&self) -> NodeBase {
        match self {
            NodeData::Branch(n) => n.base,
            NodeData::Group(n) => n.base,
            NodeData::GeographicAnchor(n) => n.base,
            NodeData::GeographicWindow(n) => n.base,
            NodeData::Image(n) => n.base,
        }
    }

    /// What the node has in common with every other node.
    pub fn base(&self) -> (r: &NodeBase)
        ensures
            *r == self.spec_base(),
    {
        match self {
            NodeData::Branch(n) => &n.base,
            NodeData::Group(n) => &n.base,
            NodeData::GeographicAnchor(n) => &n.base,
            NodeData::GeographicWindow(n) => &n.base,
            NodeData::Image(n) => &n.base,
        }
    }

    /// The identifier of the node.
    pub fn id(&self) -> (r: &str)
        ensures
            r@ == self.spec_base().id@,
    {
        self.base().id.as_str()
    }
}

/// A directed connection between two nodes.
#[derive(Debug, Clone)]
pub struct Edge {
    pub id: String,
    pub source: String,
    pub target: String,
    pub data: EdgeData,
}

/// What an edge carries.
#[derive(Debug, Clone, Copy, PartialEq, Eq)]
pub struct EdgeData {
    pub weight: u32,
}

/// A network: nodes in the order in which they were found, and the edges
/// between them.
#[derive(Debug, Clone)]
pub struct Network {
    pub id: String,
    pub label: String,
    pub nodes: Vec<NodeData>,
    pub edges: Vec<Edge>,
}

/// The index of the first node at or after `from` whose identifier is `id`,
/// or `nodes.len()` when there is none.
pub open spec fn node_position(nodes: Seq<NodeData>, id: Seq<char>, from: int) -> int
    decreases nodes.len() - from,
{
    if from < 0 || from >= nodes.len() {
        nodes.len() as int
    } else if nodes[from].spec_base().id@ == id {
        from
    } else {
        node_position(nodes, id, from + 1)
    }
}

/// The index of the first branch at or after `from` whose identifier is
/// `id`, or `nodes.len()` when there is none.
pub open spec fn branch_position(nodes: Seq<NodeData>, id: Seq<char>, from: int) -> int
    decreases nodes.len() - from,
{
    if from < 0 || from >= nodes.len() {
        nodes.len() as int
    } else if nodes[from] is Branch && nodes[from].spec_base().id@ == id {
        from
    } else {
        branch_position(nodes, id, from + 1)
    }
}

/// The index of the first group at or after `from` whose identifier is
/// `id`, or `nodes.len()` when there is none.
pub open spec fn group_position(nodes: Seq<NodeData>, id: Seq<char>, from: int) -> int
    decreases nodes.len() - from,
{
    if from < 0 || from >= nodes.len() {
        nodes.len() as int
    } else if nodes[from] is Group && nodes[from].spec_base().id@ == id {
        from
    } else {
        group_position(nodes, id, from + 1)
    }
}

impl Network {
    /// The first node with the identifier `id`.
    pub fn find_node(&self, id: &str) -> (r: Option<&NodeData>)
        ensures
            match r {
                Some(node) => {
                    let i = node_position(self.nodes@, id@, 0);
                    i < self.nodes.len() && *node == self.nodes[i]
                },
                None => node_position(self.nodes@, id@, 0) == self.nodes.len(),
            },
    {
        let wanted = id.to_owned();
        let mut i: usize = 0;
        while i < self.nodes.len()
            invariant
                i <= self.nodes.len(),
                wanted@ == id@,
                node_position(self.nodes@, id@, 0) == node_position(self.nodes@, id@, i as int),
            decreases self.nodes.len() - i,
        {
            if self.nodes[i].base().id == wanted {
                return Some(&self.nodes[i]);
            }
            i += 1;
        }
        None
    }

    /// The first branch with the identifier `id`.
    pub fn find_branch(&self, id: &str) -> (r: Option<&BranchNode>)
        ensures
            match r {
                Some(branch) => {
                    let i = branch_position(self.nodes@, id@, 0);
                    i < self.nodes.len() && self.nodes[i] == NodeData::Branch(*branch)
                },
                None => branch_position(self.nodes@, id@, 0) == self.nodes.len(),
            },
    {
        let wanted = id.to_owned();
        let mut i: usize = 0;
        while i < self.nodes.len()
            invariant
                i <= self.nodes.len(),
                wanted@ == id@,
                branch_position(self.nodes@, id@, 0) == branch_position(
                    self.nodes@,
                    id@,
                    i as int,
                ),
            decreases self.nodes.len() - i,
        {
            match &self.nodes[i] {
                NodeData::Branch(branch) => {
                    if branch.base.id == wanted {
                        return Some(branch);
                    }
                },
                _ => {},
            }
            i += 1;
        }
        None
    }

    /// The first group with the identifier `id`.
    pub fn find_group(&self, id: &str) -> (r: Option<&GroupNode>)
        ensures
            match r {
                Some(group) => {
                    let i = group_position(self.nodes@, id@, 0);
                    i < self.nodes.len() && self.nodes[i] == NodeData::Group(*group)
                },
                None => group_position(self.nodes@, id@, 0) == self.nodes.len(),
            },
    {
        let wanted = id.to_owned();
        let mut i: usize = 0;
        while i < self.nodes.len()
            invariant
                i <= self.nodes.len(),
                wanted@ == id@,
                group_position(self.nodes@, id@, 0) == group_position(self.nodes@, id@, i as int),
            decreases self.nodes.len() - i,
        {
            match &self.nodes[i] {
                NodeData::Group(group) => {
                    if group.base.id == wanted {
                        return Some(group);
                    }
                },
                _ => {},
            }
            i += 1;
        }
        None
    }
}

/// Whether a node is of the wanted type; every node is where no type is
/// wanted.
pub open spec fn node_is_wanted(node: NodeData, node_type: Option<Seq<char>>) -> bool {
    match node_type {
        Some(t) => node.spec_base().type_@ == t,
        None => true,
    }
}

/// The indices of those of the first `n` nodes that are of the wanted
/// type, in their order.
pub open spec fn wanted_nodes(nodes: Seq<NodeData>, node_type: Option<Seq<char>>, n: int) -> Seq<
    int,
>
    decreases n,
{
    if n <= 0 || n > nodes.len() {
        Seq::empty()
    } else if node_is_wanted(nodes[n - 1], node_type) {
        wanted_nodes(nodes, node_type, n - 1).push(n - 1)
    } else {
        wanted_nodes(nodes, node_type, n - 1)
    }
}

/// Whether an edge has the wanted source and the wanted target; an end
/// that is not asked for fits.
pub open spec fn edge_is_wanted(
    edge: Edge,
    source: Option<Seq<char>>,
    target: Option<Seq<char>>,
) -> bool {
    &&& match source {
        Some(s) => edge.source@ == s,
        None => true,
    }
    &&& match target {
        Some(t) => edge.target@ == t,
        None => true,
    }
}

/// The indices of those of the first `n` edges that have the wanted ends,
/// in their order.
pub open spec fn wanted_edges(
    edges: Seq<Edge>,
    source: Option<Seq<char>>,
    target: Option<Seq<char>>,
    n: int,
) -> Seq<int>
    decreases n,
{
    if n <= 0 || n > edges.len() {
        Seq::empty()
    } else if edge_is_wanted(edges[n - 1], source, target) {
        wanted_edges(edges, source, target, n - 1).push(n - 1)
    } else {
        wanted_edges(edges, source, target, n - 1)
    }
}

/// The view of an optional text.
pub open spec fn text_option(s: Option<&str>) -> Option<Seq<char>> {
    match s {
        Some(t) => Some(t@),
        None => None,
    }
}

impl Network {
    /// The nodes of the type `node_type`, or all nodes where no type is
    /// given, in the order of the network.
    pub fn get_nodes(&self, node_type: Option<&str>) -> (r: Vec<&NodeData>)
        ensures
            r.len() == wanted_nodes(
                self.nodes@,
                text_option(node_type),
                self.nodes.len() as int,
            ).len(),
            forall|k: int|
                0 <= k < r.len() ==> *(#[trigger] r[k]) == self.nodes[wanted_nodes(
                    self.nodes@,
                    text_option(node_type),
                    self.nodes.len() as int,
                )[k]],
    {
        let ghost wanted = text_option(node_type);
        let mut found: Vec<&NodeData> = Vec::new();
        let mut i: usize = 0;
        while i < self.nodes.len()
            invariant
                i <= self.nodes.len(),
                wanted == text_option(node_type),
                found.len() == wanted_nodes(self.nodes@, wanted, i as int).len(),
                forall|k: int|
                    0 <= k < found.len() ==> *(#[trigger] found[k]) == self.nodes[wanted_nodes(
                        self.nodes@,
                        wanted,
                        i as int,
                    )[k]],
            decreases self.nodes.len() - i,
        {
            let fits = match node_type {
                Some(t) => self.nodes[i].base().type_ == t.to_owned(),
                None => true,
            };
            if fits {
                found.push(&self.nodes[i]);
            }
            i += 1;
        }
        found
    }

    /// The edges from `source` to `target`, in the order of the network;
    /// an end that is not given is not asked for.
    pub fn get_edges(&self, source: Option<&str>, target: Option<&str>) -> (r: Vec<&Edge>)
        ensures
            r.len() == wanted_edges(
                self.edges@,
                text_option(source),
                text_option(target),
                self.edges.len() as int,
            ).len(),
            forall|k: int|
                0 <= k < r.len() ==> *(#[trigger] r[k]) == self.edges[wanted_edges(
                    self.edges@,
                    text_option(source),
                    text_option(target),
                    self.edges.len() as int,
                )[k]],
    {
        let ghost s = text_option(source);
        let ghost t = text_option(target);
        let mut found: Vec<&Edge> = Vec::new();
        let mut i: usize = 0;
        while i < self.edges.len()
            invariant
                i <= self.edges.len(),
                s == text_option(source),
                t == text_option(target),
                found.len() == wanted_edges(self.edges@, s, t, i as int).len(),
                forall|k: int|
                    0 <= k < found.len() ==> *(#[trigger] found[k]) == self.edges[wanted_edges(
                        self.edges@,
                        s,
                        t,
                        i as int,
                    )[k]],
            decreases self.edges.len() - i,
        {
            let source_fits = match source {
                Some(x) => self.edges[i].source == x.to_owned(),
                None => true,
            };
            let target_fits = match target {
                Some(x) => self.edges[i].target == x.to_owned(),
                None => true,
            };
            if source_fits && target_fits {
                found.push(&self.edges[i]);
            }
            i += 1;
        }
        found
    }
}

} // verus!
