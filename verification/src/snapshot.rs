//! A point-in-time, read-only copy of a graph's topology.

use vstd::prelude::*;

verus! {

/// Where an edge starts.
#[derive(Clone, Copy, Debug, PartialEq, Eq, Structural)]
pub enum EdgeSource {
    /// The node at this position of the snapshot's node list.
    Node(usize),
    /// One of the graph's own inputs.
    Graph,
}

/// A directed connection into a node or into the graph output.
#[derive(Clone, Copy, Debug, PartialEq, Eq, Structural)]
pub struct Edge {
    pub source: EdgeSource,
    /// Output channel of the source.
    pub from_index: usize,
    /// Input channel of the destination.
    pub to_index: usize,
}

/// One node of a snapshot.
#[derive(Clone, Debug)]
pub struct NodeRecord {
    /// Identifier of the node, stable across snapshots.
    pub address: u64,
    pub name: String,
    /// Labels of the input channels, in channel order.
    pub input_channels: Vec<String>,
    /// Labels of the output channels, in channel order.
    pub output_channels: Vec<String>,
    /// Edges that end in this node.
    pub input_edges: Vec<Edge>,
}

/// The topology of a graph at one moment.
#[derive(Clone, Debug)]
pub struct Snapshot {
    pub graph_id: u64,
    /// Number of outputs the graph declares.
    pub num_outputs: usize,
    /// Edges that end in the graph's outputs.
    pub graph_output_input_edges: Vec<Edge>,
    pub nodes: Vec<NodeRecord>,
}

impl Snapshot {
    /// No two nodes of the snapshot share an identifier.
    pub open spec fn ids_distinct(&self) -> bool {
        forall|i: int, j: int|
            0 <= i < j < self.nodes@.len() ==> self.nodes@[i].address != self.nodes@[j].address
    }

    /// The node at position `i` has identifier `id`.
    pub open spec fn has_at(&self, i: int, id: u64) -> bool {
        0 <= i < self.nodes@.len() && self.nodes@[i].address == id
    }

    /// Some node of the snapshot has identifier `id`.
    pub open spec fn has(&self, id: u64) -> bool {
        exists|i: int| self.has_at(i, id)
    }

    /// The first position of a node with identifier `id`.
    pub fn position_of(&self, id: u64) -> (found: Option<usize>)
        ensures
            match found {
                Some(i) => self.has_at(i as int, id) && forall|j: int|
                    0 <= j < i ==> !self.has_at(j, id),
                None => !self.has(id),
            },
    {
        let mut i: usize = 0;
        while i < self.nodes.len()
            invariant
                i <= self.nodes@.len(),
                forall|j: int| 0 <= j < i ==> !self.has_at(j, id),
            decreases self.nodes@.len() - i,
        {
            if self.nodes[i].address == id {
                return Some(i);
            }
            i += 1;
        }
        None
    }

    /// The snapshot of a graph without nodes, outputs or edges.
    pub fn empty() -> (s: Snapshot)
        ensures
            s.graph_id == 0,
            s.num_outputs == 0,
            s.graph_output_input_edges@.len() == 0,
            s.nodes@.len() == 0,
    {
        Snapshot {
            graph_id: 0,
            num_outputs: 0,
            graph_output_input_edges: Vec::new(),
            nodes: Vec::new(),
        }
    }
}

} // verus!
