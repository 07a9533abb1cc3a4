//! The topology diff: which entities a snapshot adds to a scene.
//!
//! A snapshot never removes anything. Its nodes are matched against the
//! scene's nodes by identifier; each node the scene lacks becomes a new
//! entity, and the edges into the new entities are resolved and linked.

use crate::diff_laws::{
    lemma_created_grows, lemma_first_fault_extend, lemma_first_node_of_prefix, lemma_no_fault,
    lemma_no_fault_prefix, lemma_sources_present,
};
use crate::scene::{
    has_graph_output, has_node, is_first_node, is_node_with, lemma_push_edge,
    lemma_push_graph_output, lemma_push_node, well_formed, Scene, Visual, VisualEdge,
    VisualGraphOutput, VisualNode,
};
use crate::snapshot::{Edge, EdgeSource, NodeRecord, Snapshot};
use vstd::prelude::*;

verus! {

/// Why a snapshot cannot be materialised.
#[derive(Clone, Copy, Debug, PartialEq, Eq, Structural)]
pub enum DiffError {
    /// An edge starts at one of the graph's own inputs, which have no visual
    /// counterpart.
    GraphSource,
    /// An edge names a source position outside the snapshot's node list.
    SourceOutOfRange,
}

/// A request to create an edge: the edge as the snapshot states it, and the
/// handle of the entity it ends in.
pub struct QueuedEdge {
    pub edge: Edge,
    pub sink: int,
}

/// A node entity that a diff created.
#[derive(Clone, Copy, Debug, PartialEq, Eq, Structural)]
pub struct NewNode {
    /// Handle of the entity in the scene.
    pub handle: usize,
    /// Position of the node in the snapshot's node list.
    pub index: usize,
}

/// What a diff added to the scene.
#[derive(Debug)]
pub struct DiffReport {
    /// Handle of the graph output, if this diff created it.
    pub graph_output: Option<usize>,
    /// The node entities created, in snapshot order.
    pub new_nodes: Vec<NewNode>,
    /// Handle of the first edge created; the others follow it.
    pub first_edge: usize,
    /// Number of edges created.
    pub num_edges: usize,
}

/// The entity that stands for a node of a snapshot.
pub open spec fn node_entity(n: NodeRecord) -> Visual {
    Visual::Node(
        VisualNode {
            id: n.address,
            num_inputs: n.input_channels@.len() as usize,
            num_outputs: n.output_channels@.len() as usize,
        },
    )
}

/// The entity that stands for the output sink of a snapshot's graph.
pub open spec fn output_entity(s: Snapshot) -> Visual {
    Visual::GraphOutput(VisualGraphOutput { num_outputs: s.num_outputs, graph_id: s.graph_id })
}

/// The scene has no node for the snapshot's node at position `i`.
pub open spec fn is_absent(scene: Seq<Visual>, s: Snapshot, i: int) -> bool {
    !has_node(scene, s.nodes@[i].address)
}

/// The graph output to create: one if the scene has none yet.
pub open spec fn output_part(scene: Seq<Visual>, s: Snapshot) -> Seq<Visual> {
    if has_graph_output(scene) {
        Seq::empty()
    } else {
        seq![output_entity(s)]
    }
}

/// Handle of the first node entity that a diff of `s` creates.
pub open spec fn first_new_handle(scene: Seq<Visual>, s: Snapshot) -> int {
    (scene.len() + output_part(scene, s).len()) as int
}

/// The node entities created for the first `upto` nodes of the snapshot: one
/// for each node that the scene lacks, in snapshot order, with consecutive
/// handles.
pub open spec fn created(scene: Seq<Visual>, s: Snapshot, upto: int) -> Seq<NewNode>
    decreases upto,
{
    if upto <= 0 {
        Seq::empty()
    } else {
        let before = created(scene, s, upto - 1);
        if is_absent(scene, s, upto - 1) {
            before.push(
                NewNode {
                    handle: (first_new_handle(scene, s) + before.len()) as usize,
                    index: (upto - 1) as usize,
                },
            )
        } else {
            before
        }
    }
}

/// Maps a created node to its entity.
pub open spec fn entity_of(s: Snapshot) -> spec_fn(NewNode) -> Visual {
    |c: NewNode| node_entity(s.nodes@[c.index as int])
}

/// The scene with the graph output and the new nodes added, before any edge
/// is linked.
pub open spec fn with_endpoints(scene: Seq<Visual>, s: Snapshot) -> Seq<Visual> {
    scene + output_part(scene, s) + created(scene, s, s.nodes@.len() as int).map_values(
        entity_of(s),
    )
}

/// Requests for all of `edges`, each ending in `sink`.
pub open spec fn requests_into(edges: Seq<Edge>, sink: int) -> Seq<QueuedEdge> {
    Seq::new(edges.len(), |j: int| QueuedEdge { edge: edges[j], sink })
}

/// The edge requests that the graph output and the first `upto` nodes of the
/// snapshot give rise to: the edges into the graph output if the diff
/// creates it, then the input edges of each created node.
pub open spec fn pending_edges(scene: Seq<Visual>, s: Snapshot, upto: int) -> Seq<QueuedEdge>
    decreases upto,
{
    if upto <= 0 {
        if has_graph_output(scene) {
            Seq::empty()
        } else {
            requests_into(s.graph_output_input_edges@, scene.len() as int)
        }
    } else {
        let before = pending_edges(scene, s, upto - 1);
        if is_absent(scene, s, upto - 1) {
            before + requests_into(
                s.nodes@[upto - 1].input_edges@,
                first_new_handle(scene, s) + created(scene, s, upto - 1).len(),
            )
        } else {
            before
        }
    }
}

/// All edge requests of a diff, in the order in which they are resolved.
pub open spec fn requests(scene: Seq<Visual>, s: Snapshot) -> Seq<QueuedEdge> {
    pending_edges(scene, s, s.nodes@.len() as int)
}

/// What is wrong with an edge's source, if anything.
pub open spec fn edge_fault(s: Snapshot, e: Edge) -> Option<DiffError> {
    match e.source {
        EdgeSource::Graph => Some(DiffError::GraphSource),
        EdgeSource::Node(i) => if i < s.nodes@.len() {
            None
        } else {
            Some(DiffError::SourceOutOfRange)
        },
    }
}

/// The fault of the first faulty edge among `edges`.
pub open spec fn first_edge_fault(s: Snapshot, edges: Seq<Edge>) -> Option<DiffError>
    decreases edges.len(),
{
    if edges.len() == 0 {
        None
    } else {
        match edge_fault(s, edges[0]) {
            Some(fault) => Some(fault),
            None => first_edge_fault(s, edges.skip(1)),
        }
    }
}

/// The edges of a sequence of requests.
pub open spec fn edges_of(queue: Seq<QueuedEdge>) -> Seq<Edge> {
    Seq::new(queue.len(), |j: int| queue[j].edge)
}

/// The fault of the first faulty request.
pub open spec fn first_fault(s: Snapshot, queue: Seq<QueuedEdge>) -> Option<DiffError> {
    first_edge_fault(s, edges_of(queue))
}

/// Identifier of the node an edge starts at, for an edge without fault.
pub open spec fn source_id(s: Snapshot, e: Edge) -> u64 {
    match e.source {
        EdgeSource::Node(i) => s.nodes@[i as int].address,
        EdgeSource::Graph => 0,
    }
}

/// The smallest handle of a node with identifier `id`.
pub open spec fn first_node(scene: Seq<Visual>, id: u64) -> int {
    choose|h: int| is_first_node(scene, h, id)
}

/// The edge entity for a request: it starts at the first node of `ends` that
/// carries the source's identifier.
pub open spec fn link(ends: Seq<Visual>, s: Snapshot, q: QueuedEdge) -> Visual {
    Visual::Edge(
        VisualEdge {
            from_entity: first_node(ends, source_id(s, q.edge)) as usize,
            to_entity: q.sink as usize,
            from_channel_index: q.edge.from_index,
            to_channel_index: q.edge.to_index,
        },
    )
}

/// Maps a request to its edge entity.
pub open spec fn linker(ends: Seq<Visual>, s: Snapshot) -> spec_fn(QueuedEdge) -> Visual {
    |q: QueuedEdge| link(ends, s, q)
}

/// The scene after a diff against `s`: the old entities, then the graph
/// output if there was none, then a node for each snapshot node the scene
/// lacked, then an edge for each request.
pub open spec fn materialize(scene: Seq<Visual>, s: Snapshot) -> Seq<Visual> {
    let ends = with_endpoints(scene, s);
    ends + requests(scene, s).map_values(linker(ends, s))
}

/// `outcome` and the scene `after` are what a diff of `scene` against `s`
/// gives. The diff succeeds just when no edge request is faulty. Then the
/// scene is the materialised one, and the report names what was created: the
/// graph output, the nodes and the edges, which got consecutive handles in
/// this order. Else the scene is unchanged and the error is the fault of the
/// first faulty request.
pub open spec fn is_diff_outcome(
    scene: Seq<Visual>,
    s: Snapshot,
    after: Seq<Visual>,
    outcome: Result<DiffReport, DiffError>,
) -> bool {
    match outcome {
        Ok(report) => {
            &&& first_fault(s, requests(scene, s)) is None
            &&& after == materialize(scene, s)
            &&& report.graph_output == if has_graph_output(scene) {
                None
            } else {
                Some(scene.len() as usize)
            }
            &&& report.new_nodes@ == created(scene, s, s.nodes@.len() as int)
            &&& report.first_edge == with_endpoints(scene, s).len()
            &&& report.num_edges == requests(scene, s).len()
        },
        Err(fault) => {
            &&& first_fault(s, requests(scene, s)) == Some(fault)
            &&& after == scene
        },
    }
}

/// The snapshot is fully materialised in the scene: the scene has a graph
/// output and a node for every node of the snapshot.
pub open spec fn fully_materialized(scene: Seq<Visual>, s: Snapshot) -> bool {
    &&& has_graph_output(scene)
    &&& forall|i: int| 0 <= i < s.nodes@.len() ==> !is_absent(scene, s, i)
}

/// The entity at `h` is a node whose identifier no node of the snapshot
/// carries.
pub open spec fn is_stale(scene: Seq<Visual>, s: Snapshot, h: int) -> bool {
    &&& 0 <= h < scene.len()
    &&& scene[h] matches Visual::Node(n)
    &&& !s.has(n.id)
}

/// The fault of `edge`, if it has one.
pub fn fault_of(snapshot: &Snapshot, edge: &Edge) -> (fault: Option<DiffError>)
    ensures
        fault == edge_fault(*snapshot, *edge),
{
    match edge.source {
        EdgeSource::Graph => Some(DiffError::GraphSource),
        EdgeSource::Node(i) => {
            if i < snapshot.nodes.len() {
                None
            } else {
                Some(DiffError::SourceOutOfRange)
            }
        },
    }
}

/// The fault of the first faulty edge among `edges`, if any is faulty.
pub fn first_fault_among(snapshot: &Snapshot, edges: &Vec<Edge>) -> (fault: Option<DiffError>)
    ensures
        fault == first_edge_fault(*snapshot, edges@),
{
    let mut j: usize = 0;
    assert(edges@.skip(0) =~= edges@);
    while j < edges.len()
        invariant
            j <= edges@.len(),
            first_edge_fault(*snapshot, edges@) == first_edge_fault(*snapshot, edges@.skip(j as int)),
        decreases edges@.len() - j,
    {
        let fault = fault_of(snapshot, &edges[j]);
        proof {
            assert(edges@.skip(j as int)[0] == edges@[j as int]);
            assert(edges@.skip(j as int).skip(1) =~= edges@.skip(j + 1));
        }
        if fault.is_some() {
            return fault;
        }
        j += 1;
    }
    None
}

impl Scene {
    /// Resolves the source of an edge of `snapshot` to a node of the scene:
    /// the first node that carries the identifier of the snapshot node the
    /// edge names. `Ok(None)` says that the scene has no such node; an edge
    /// from a graph input, or from a position outside the snapshot's node
    /// list, is a fault.
    pub fn resolve_source(&self, snapshot: &Snapshot, edge: &Edge) -> (source: Result<
        Option<usize>,
        DiffError,
    >)
        ensures
            match source {
                Ok(Some(h)) => {
                    &&& edge_fault(*snapshot, *edge) is None
                    &&& is_first_node(self@, h as int, source_id(*snapshot, *edge))
                },
                Ok(None) => {
                    &&& edge_fault(*snapshot, *edge) is None
                    &&& !has_node(self@, source_id(*snapshot, *edge))
                },
                Err(fault) => edge_fault(*snapshot, *edge) == Some(fault),
            },
    {
        match edge.source {
            EdgeSource::Graph => Err(DiffError::GraphSource),
            EdgeSource::Node(i) => {
                if i < snapshot.nodes.len() {
                    Ok(self.find_node(snapshot.nodes[i].address))
                } else {
                    Err(DiffError::SourceOutOfRange)
                }
            },
        }
    }

    /// Materialises what `snapshot` adds to the scene.
    ///
    /// If the scene has no graph output, one is created, sized by the
    /// snapshot's output count. Each node of the snapshot whose identifier no
    /// node of the scene carries becomes a new node entity. The edges into the
    /// entities created here are then linked, each from the first node of the
    /// scene that carries its source's identifier. Entities that the scene
    /// already holds are left as they are, and so are their edges.
    ///
    /// The diff fails, and leaves the scene unchanged, if one of the edges to
    /// link starts at a graph input or names a source outside the snapshot's
    /// node list; the error is that of the first such edge.
    pub fn apply_snapshot(&mut self, snapshot: &Snapshot) -> (outcome: Result<DiffReport, DiffError>)
        ensures
            well_formed(final(self)@),
            is_diff_outcome(old(self)@, *snapshot, final(self)@, outcome),
    {
        proof {
            use_type_invariant(&*self);
        }
        let ghost scene = self@;
        let ghost s = *snapshot;
        let n = snapshot.nodes.len();
        let has_output = self.graph_output().is_some();

        // Which nodes are absent, and whether an edge to link is faulty.
        let mut fault: Option<DiffError> = None;
        if !has_output {
            fault = first_fault_among(snapshot, &snapshot.graph_output_input_edges);
            proof {
                assert(edges_of(pending_edges(scene, s, 0)) =~= s.graph_output_input_edges@);
            }
        }
        let mut absent: Vec<bool> = Vec::new();
        let mut i: usize = 0;
        while i < n
            invariant
                i <= n,
                n == snapshot.nodes@.len(),
                s == *snapshot,
                self@ == scene,
                absent@.len() == i,
                forall|j: int| 0 <= j < i ==> absent@[j] == is_absent(scene, s, j),
                fault == first_fault(s, pending_edges(scene, s, i as int)),
            decreases n - i,
        {
            let missing = self.find_node(snapshot.nodes[i].address).is_none();
            if missing {
                proof {
                    lemma_first_fault_extend(
                        s,
                        pending_edges(scene, s, i as int),
                        s.nodes@[i as int].input_edges@,
                        first_new_handle(scene, s) + created(scene, s, i as int).len(),
                    );
                }
                if fault.is_none() {
                    fault = first_fault_among(snapshot, &snapshot.nodes[i].input_edges);
                }
            }
            absent.push(missing);
            i += 1;
        }
        if let Some(found) = fault {
            return Err(found);
        }
        // The graph output and the new nodes.

        let mut graph_output: Option<usize> = None;
        if !has_output {
            let output = VisualGraphOutput {
                num_outputs: snapshot.num_outputs,
                graph_id: snapshot.graph_id,
            };
            proof {
                lemma_push_graph_output(self@, output);
            }
            graph_output = Some(self.push(Visual::GraphOutput(output)));
        }
        let first_node = self.len();
        let mut new_nodes: Vec<NewNode> = Vec::new();
        let mut i: usize = 0;
        while i < n
            invariant
                i <= n,
                n == snapshot.nodes@.len(),
                s == *snapshot,
                absent@.len() == n,
                forall|j: int| 0 <= j < n ==> absent@[j] == is_absent(scene, s, j),
                first_node == first_new_handle(scene, s),
                well_formed(self@),
                new_nodes@ == created(scene, s, i as int),
                self@ == scene + output_part(scene, s) + created(scene, s, i as int).map_values(
                    entity_of(s),
                ),
            decreases n - i,
        {
            if absent[i] {
                let record = &snapshot.nodes[i];
                let node = VisualNode {
                    id: record.address,
                    num_inputs: record.input_channels.len(),
                    num_outputs: record.output_channels.len(),
                };
                let ghost before = created(scene, s, i as int);
                proof {
                    lemma_push_node(self@, node);
                }
                let handle = self.push(Visual::Node(node));
                let added = NewNode { handle, index: i };
                new_nodes.push(added);
                proof {
                    assert(created(scene, s, i + 1) == before.push(added));
                    assert(entity_of(s)(added) == Visual::Node(node));
                    assert(before.push(added).map_values(entity_of(s)) =~= before.map_values(
                        entity_of(s),
                    ).push(Visual::Node(node)));
                    assert(self@ =~= scene + output_part(scene, s) + created(
                        scene,
                        s,
                        i + 1,
                    ).map_values(entity_of(s)));
                }
            }
            i += 1;
        }
        // The edges.

        let ghost ends = self@;
        let first_edge = self.len();
        proof {
            assert(ends == with_endpoints(scene, s));
            assert forall|i: int| 0 <= i < s.nodes@.len() implies has_node(
                ends,
                s.nodes@[i].address,
            ) by {
                lemma_sources_present(scene, s, i);
            }
            assert(self@.subrange(0, ends.len() as int) =~= ends);
        }
        if let Some(sink) = graph_output {
            proof {
                lemma_no_fault_prefix(scene, s, 0);
                assert(edges_of(pending_edges(scene, s, 0)) =~= s.graph_output_input_edges@);
            }
            self.link_edges(snapshot, &snapshot.graph_output_input_edges, sink, Ghost(ends));
        }
        proof {
            assert(self@ =~= ends + pending_edges(scene, s, 0).map_values(linker(ends, s)));
        }
        let mut sink: usize = first_node;
        let mut i: usize = 0;
        while i < n
            invariant
                i <= n,
                n == snapshot.nodes@.len(),
                s == *snapshot,
                absent@.len() == n,
                forall|j: int| 0 <= j < n ==> absent@[j] == is_absent(scene, s, j),
                ends == with_endpoints(scene, s),
                first_edge == ends.len(),
                first_fault(s, requests(scene, s)) is None,
                forall|i: int| 0 <= i < s.nodes@.len() ==> has_node(ends, s.nodes@[i].address),
                sink == first_new_handle(scene, s) + created(scene, s, i as int).len(),
                self@ == ends + pending_edges(scene, s, i as int).map_values(linker(ends, s)),
            decreases n - i,
        {
            if absent[i] {
                let ghost queue = pending_edges(scene, s, i as int);
                let ghost more = requests_into(s.nodes@[i as int].input_edges@, sink as int);
                proof {
                    lemma_created_grows(scene, s, i + 1, n as int);
                    assert(sink < ends.len());
                    assert(ends[sink as int] == created(scene, s, n as int).map_values(
                        entity_of(s),
                    )[sink - first_new_handle(scene, s)]);
                    lemma_no_fault_prefix(scene, s, i + 1);
                    lemma_first_fault_extend(s, queue, s.nodes@[i as int].input_edges@, sink as int);
                    assert(self@.subrange(0, ends.len() as int) =~= ends);
                }
                self.link_edges(snapshot, &snapshot.nodes[i].input_edges, sink, Ghost(ends));
                proof {
                    assert((queue + more).map_values(linker(ends, s)) =~= queue.map_values(
                        linker(ends, s),
                    ) + more.map_values(linker(ends, s)));
                    assert(self@ =~= ends + pending_edges(scene, s, i + 1).map_values(
                        linker(ends, s),
                    ));
                }
                sink += 1;
            }
            i += 1;
        }
        proof {
            use_type_invariant(&*self);
        }
        let num_edges = self.len() - first_edge;
        Ok(DiffReport { graph_output, new_nodes, first_edge, num_edges })
    }

    /// The nodes of the scene that `snapshot` no longer holds, by ascending
    /// handle. A diff never removes them; this tells a caller which entities
    /// it may want to retire.
    pub fn stale_nodes(&self, snapshot: &Snapshot) -> (stale: Vec<usize>)
        ensures
            forall|i: int, j: int| 0 <= i < j < stale@.len() ==> stale@[i] < stale@[j],
            forall|h: int|
                is_stale(self@, *snapshot, h) <==> exists|i: int|
                    0 <= i < stale@.len() && #[trigger] stale@[i] == h,
    {
        let n = self.len();
        let mut stale: Vec<usize> = Vec::new();
        let mut h: usize = 0;
        while h < n
            invariant
                h <= n,
                n == self@.len(),
                forall|i: int, j: int| 0 <= i < j < stale@.len() ==> stale@[i] < stale@[j],
                forall|i: int| 0 <= i < stale@.len() ==> #[trigger] stale@[i] < h,
                forall|g: int|
                    g < h && is_stale(self@, *snapshot, g) ==> exists|i: int|
                        0 <= i < stale@.len() && #[trigger] stale@[i] == g,
                forall|i: int|
                    0 <= i < stale@.len() ==> is_stale(self@, *snapshot, (#[trigger] stale@[i]) as int),
            decreases n - h,
        {
            let gone = match self.get(h) {
                Some(Visual::Node(node)) => snapshot.position_of(node.id).is_none(),
                _ => false,
            };
            if gone {
                let ghost before = stale@;
                stale.push(h);
                proof {
                    assert forall|g: int| g < h + 1 && is_stale(self@, *snapshot, g) implies exists|
                        i: int,
                    |
                        0 <= i < stale@.len() && #[trigger] stale@[i] == g by {
                        if g < h {
                            let i = choose|i: int| 0 <= i < before.len() && #[trigger] before[i] == g;
                            assert(stale@[i] == g);
                        } else {
                            assert(stale@[before.len() as int] == g);
                        }
                    }
                }
            }
            h += 1;
        }
        stale
    }

    /// Links `edges`, which all end in `sink`, to their sources.
    fn link_edges(
        &mut self,
        snapshot: &Snapshot,
        edges: &Vec<Edge>,
        sink: usize,
        Ghost(ends): Ghost<Seq<Visual>>,
    )
        requires
            ends.len() <= old(self)@.len(),
            old(self)@.subrange(0, ends.len() as int) == ends,
            sink < ends.len(),
            !(ends[sink as int] is Edge),
            first_edge_fault(*snapshot, edges@) is None,
            forall|i: int| 0 <= i < snapshot.nodes@.len() ==> has_node(ends, snapshot.nodes@[i].address),
        ensures
            final(self)@ == old(self)@ + requests_into(edges@, sink as int).map_values(
                linker(ends, *snapshot),
            ),
    {
        let ghost before = self@;
        let ghost queue = requests_into(edges@, sink as int);
        let mut j: usize = 0;
        while j < edges.len()
            invariant
                j <= edges@.len(),
                ends.len() <= before.len(),
                before.subrange(0, ends.len() as int) == ends,
                sink < ends.len(),
                !(ends[sink as int] is Edge),
                first_edge_fault(*snapshot, edges@) is None,
                forall|i: int|
                    0 <= i < snapshot.nodes@.len() ==> has_node(ends, snapshot.nodes@[i].address),
                queue == requests_into(edges@, sink as int),
                self@ == before + queue.take(j as int).map_values(linker(ends, *snapshot)),
            decreases edges@.len() - j,
        {
            let edge = edges[j];
            proof {
                use_type_invariant(&*self);
                lemma_no_fault(*snapshot, edges@, j as int);
            }
            match self.resolve_source(snapshot, &edge) {
                Ok(Some(h)) => {
                    let created_edge = VisualEdge {
                        from_entity: h,
                        to_entity: sink,
                        from_channel_index: edge.from_index,
                        to_channel_index: edge.to_index,
                    };
                    proof {
                        let id = source_id(*snapshot, edge);
                        let added = self@.subrange(ends.len() as int, self@.len() as int);
                        assert(self@ =~= ends + added);
                        lemma_first_node_of_prefix(ends, added, h as int, id);
                        assert(self@[h as int] == ends[h as int]);
                        assert(self@[sink as int] == ends[sink as int]);
                        lemma_push_edge(self@, created_edge);
                        assert(Visual::Edge(created_edge) == link(ends, *snapshot, queue[j as int]));
                        assert(queue.take(j + 1) =~= queue.take(j as int).push(queue[j as int]));
                        assert(queue.take(j + 1).map_values(linker(ends, *snapshot))
                            =~= queue.take(j as int).map_values(linker(ends, *snapshot)).push(
                            Visual::Edge(created_edge),
                        ));
                    }
                    self.push(Visual::Edge(created_edge));
                },
                Ok(None) => {
                    // An edge without a source in the scene would be left
                    // out. Here none is: every node of the snapshot is in
                    // the scene by now.
                    proof {
                        let id = source_id(*snapshot, edge);
                        let w = choose|w: int| is_node_with(ends, w, id);
                        assert(self@[w] == ends[w]);
                        assert(is_node_with(self@, w, id));
                    }
                    assert(false);
                },
                Err(_) => {
                    assert(false);
                },
            }
            j += 1;
        }
        proof {
            assert(queue.take(j as int) =~= queue);
        }
    }
}

} // verus!
