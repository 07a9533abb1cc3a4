//! The visual scene: an arena of entities addressed by stable handles.

use vstd::prelude::*;

verus! {

/// The visual counterpart of a graph node.
#[derive(Clone, Copy, Debug, PartialEq, Eq, Structural)]
pub struct VisualNode {
    /// Identifier of the graph node this entity stands for.
    pub id: u64,
    pub num_inputs: usize,
    pub num_outputs: usize,
}

/// The visual counterpart of the graph's output sink.
#[derive(Clone, Copy, Debug, PartialEq, Eq, Structural)]
pub struct VisualGraphOutput {
    pub num_outputs: usize,
    pub graph_id: u64,
}

/// A link between two entities of the scene, given by their handles.
#[derive(Clone, Copy, Debug, PartialEq, Eq, Structural)]
pub struct VisualEdge {
    pub from_entity: usize,
    pub to_entity: usize,
    pub from_channel_index: usize,
    pub to_channel_index: usize,
}

/// An entity of the scene.
#[derive(Clone, Copy, Debug, PartialEq, Eq, Structural)]
pub enum Visual {
    Node(VisualNode),
    GraphOutput(VisualGraphOutput),
    Edge(VisualEdge),
}

/// The entity at `h` is a node with identifier `id`.
pub open spec fn is_node_with(scene: Seq<Visual>, h: int, id: u64) -> bool {
    &&& 0 <= h < scene.len()
    &&& scene[h] matches Visual::Node(n)
    &&& n.id == id
}

/// Some node of the scene has identifier `id`.
pub open spec fn has_node(scene: Seq<Visual>, id: u64) -> bool {
    exists|h: int| is_node_with(scene, h, id)
}

/// The entity at `h` is a graph output.
pub open spec fn is_graph_output(scene: Seq<Visual>, h: int) -> bool {
    0 <= h < scene.len() && scene[h] is GraphOutput
}

/// The scene holds a graph output.
pub open spec fn has_graph_output(scene: Seq<Visual>) -> bool {
    exists|h: int| is_graph_output(scene, h)
}

/// `h` is the smallest handle of a node with identifier `id`.
pub open spec fn is_first_node(scene: Seq<Visual>, h: int, id: u64) -> bool {
    is_node_with(scene, h, id) && forall|j: int| 0 <= j < h ==> !is_node_with(scene, j, id)
}

/// No two nodes of the scene carry the same identifier.
pub open spec fn nodes_distinct(scene: Seq<Visual>) -> bool {
    forall|g: int, h: int, id: u64|
        is_node_with(scene, g, id) && is_node_with(scene, h, id) ==> g == h
}

/// If the entity at `e` is an edge, it starts at a node and ends at a node or
/// at the graph output, both with smaller handles.
pub open spec fn edge_in_order(scene: Seq<Visual>, e: int) -> bool {
    scene[e] matches Visual::Edge(l) ==> {
        &&& l.from_entity < e
        &&& scene[l.from_entity as int] is Node
        &&& l.to_entity < e
        &&& !(scene[l.to_entity as int] is Edge)
    }
}

/// Handles are positions in the arena. A scene is well formed when it holds
/// at most one graph output, and every edge starts at a node and ends at a
/// node or at the graph output, both created before the edge.
pub open spec fn well_formed(scene: Seq<Visual>) -> bool {
    &&& forall|i: int, j: int|
        is_graph_output(scene, i) && is_graph_output(scene, j) ==> i == j
    &&& forall|e: int|
        0 <= e < scene.len() ==> edge_in_order(scene, e)
}

/// Adding a node keeps a scene well formed.
pub proof fn lemma_push_node(scene: Seq<Visual>, node: VisualNode)
    requires
        well_formed(scene),
    ensures
        well_formed(scene.push(Visual::Node(node))),
{
    let after = scene.push(Visual::Node(node));
    assert forall|i: int, j: int| is_graph_output(after, i) && is_graph_output(after, j) implies i
        == j by {
        assert(is_graph_output(scene, i) && is_graph_output(scene, j));
    }
    assert forall|e: int| 0 <= e < after.len() implies edge_in_order(after, e) by {
        if e < scene.len() {
            assert(edge_in_order(scene, e));
        }
    }
}

/// Adding a graph output to a scene without one keeps it well formed.
pub proof fn lemma_push_graph_output(scene: Seq<Visual>, output: VisualGraphOutput)
    requires
        well_formed(scene),
        !has_graph_output(scene),
    ensures
        well_formed(scene.push(Visual::GraphOutput(output))),
{
    let after = scene.push(Visual::GraphOutput(output));
    assert forall|i: int, j: int| is_graph_output(after, i) && is_graph_output(after, j) implies i
        == j by {
        if i < scene.len() {
            assert(is_graph_output(scene, i));
        }
        if j < scene.len() {
            assert(is_graph_output(scene, j));
        }
    }
    assert forall|e: int| 0 <= e < after.len() implies edge_in_order(after, e) by {
        if e < scene.len() {
            assert(edge_in_order(scene, e));
        }
    }
}

/// Adding an edge between entities of the scene keeps it well formed, if the
/// edge starts at a node and does not end at an edge.
pub proof fn lemma_push_edge(scene: Seq<Visual>, edge: VisualEdge)
    requires
        well_formed(scene),
        edge.from_entity < scene.len(),
        scene[edge.from_entity as int] is Node,
        edge.to_entity < scene.len(),
        !(scene[edge.to_entity as int] is Edge),
    ensures
        well_formed(scene.push(Visual::Edge(edge))),
{
    let after = scene.push(Visual::Edge(edge));
    assert forall|i: int, j: int| is_graph_output(after, i) && is_graph_output(after, j) implies i
        == j by {
        assert(is_graph_output(scene, i) && is_graph_output(scene, j));
    }
    assert forall|e: int| 0 <= e < after.len() implies edge_in_order(after, e) by {
        if e < scene.len() {
            assert(edge_in_order(scene, e));
        }
    }
}

/// The scene of everything materialised so far.
pub struct Scene {
    entities: Vec<Visual>,
}

impl View for Scene {
    type V = Seq<Visual>;

    closed spec fn view(&self) -> Seq<Visual> {
        self.entities@
    }
}

impl Scene {
    /// Every scene is well formed.
    #[verifier::type_invariant]
    pub open spec fn wf(self) -> bool {
        well_formed(self@)
    }

    /// An empty scene.
    pub fn new() -> (scene: Scene)
        ensures
            scene@.len() == 0,
            well_formed(scene@),
    {
        Scene { entities: Vec::new() }
    }

    /// Number of entities; the handles are the numbers below it.
    pub fn len(&self) -> (n: usize)
        ensures
            n == self@.len(),
    {
        self.entities.len()
    }

    /// The entity with handle `h`, if there is one.
    pub fn get(&self, h: usize) -> (entity: Option<Visual>)
        ensures
            entity == if h < self@.len() { Some(self@[h as int]) } else { None::<Visual> },
    {
        if h < self.entities.len() {
            Some(self.entities[h])
        } else {
            None
        }
    }

    /// Adds an entity at the end of the arena and returns its handle.
    pub(crate) fn push(&mut self, entity: Visual) -> (h: usize)
        requires
            well_formed(old(self)@.push(entity)),
        ensures
            final(self)@ == old(self)@.push(entity),
            h == old(self)@.len(),
    {
        let mut entities: Vec<Visual> = Vec::new();
        std::mem::swap(&mut entities, &mut self.entities);
        let h = entities.len();
        entities.push(entity);
        self.entities = entities;
        h
    }

    /// The smallest handle of a node with identifier `id`.
    pub fn find_node(&self, id: u64) -> (found: Option<usize>)
        ensures
            match found {
                Some(h) => is_first_node(self@, h as int, id),
                None => !has_node(self@, id),
            },
    {
        let mut h: usize = 0;
        while h < self.entities.len()
            invariant
                h <= self.entities@.len(),
                forall|j: int| 0 <= j < h ==> !is_node_with(self.entities@, j, id),
            decreases self.entities@.len() - h,
        {
            match self.entities[h] {
                Visual::Node(n) => {
                    if n.id == id {
                        return Some(h);
                    }
                },
                _ => {},
            }
            h += 1;
        }
        None
    }

    /// The handle of the graph output, of which a scene has at most one.
    pub fn graph_output(&self) -> (found: Option<usize>)
        ensures
            match found {
                Some(h) => {
                    &&& is_graph_output(self@, h as int)
                    &&& forall|g: int| is_graph_output(self@, g) ==> g == h
                },
                None => !has_graph_output(self@),
            },
    {
        proof {
            use_type_invariant(self);
        }
        let mut h: usize = 0;
        while h < self.entities.len()
            invariant
                h <= self.entities@.len(),
                well_formed(self.entities@),
                forall|j: int| 0 <= j < h ==> !is_graph_output(self.entities@, j),
            decreases self.entities@.len() - h,
        {
            match self.entities[h] {
                Visual::GraphOutput(_) => {
                    assert(is_graph_output(self.entities@, h as int));
                    return Some(h);
                },
                _ => {},
            }
            h += 1;
        }
        None
    }
}

} // verus!
