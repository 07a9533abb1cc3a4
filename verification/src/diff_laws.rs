//! What holds of every diff: it is idempotent, it creates one entity for
//! each node the scene lacks, it finds a source for every edge it links, it
//! keeps what the scene holds, and it keeps identifiers unique.

use crate::diff::{
    created, edge_fault, edges_of, entity_of, first_edge_fault, first_fault, first_new_handle,
    first_node, fully_materialized, is_absent, link, materialize, node_entity, output_entity,
    pending_edges, requests, requests_into, with_endpoints, QueuedEdge,
};
use crate::scene::{
    has_graph_output, has_node, is_first_node, is_graph_output, is_node_with, nodes_distinct,
    well_formed, Visual,
};
use crate::snapshot::{Edge, Snapshot};
use vstd::prelude::*;

verus! {

/// The first fault of a concatenation is the first fault of its first part,
/// or else that of its second part.
pub proof fn lemma_first_edge_fault_add(s: Snapshot, a: Seq<Edge>, b: Seq<Edge>)
    ensures
        first_edge_fault(s, a + b) == match first_edge_fault(s, a) {
            Some(fault) => Some(fault),
            None => first_edge_fault(s, b),
        },
    decreases a.len(),
{
    if a.len() == 0 {
        assert(a + b =~= b);
    } else {
        assert((a + b)[0] == a[0]);
        assert((a + b).skip(1) =~= a.skip(1) + b);
        lemma_first_edge_fault_add(s, a.skip(1), b);
    }
}

/// The first fault of a queue extended by requests for `edges`.
pub proof fn lemma_first_fault_extend(s: Snapshot, queue: Seq<QueuedEdge>, edges: Seq<Edge>, sink: int)
    ensures
        first_fault(s, queue + requests_into(edges, sink)) == match first_fault(s, queue) {
            Some(fault) => Some(fault),
            None => first_edge_fault(s, edges),
        },
{
    assert(edges_of(queue + requests_into(edges, sink)) =~= edges_of(queue) + edges);
    lemma_first_edge_fault_add(s, edges_of(queue), edges);
}

/// A fault among the requests of a prefix of the snapshot is the fault of
/// the whole diff.
pub proof fn lemma_fault_persists(scene: Seq<Visual>, s: Snapshot, i: int, j: int)
    requires
        0 <= i <= j,
        first_fault(s, pending_edges(scene, s, i)) is Some,
    ensures
        first_fault(s, pending_edges(scene, s, j)) == first_fault(s, pending_edges(scene, s, i)),
    decreases j - i,
{
    if i < j {
        lemma_fault_persists(scene, s, i, j - 1);
        if is_absent(scene, s, j - 1) {
            lemma_first_fault_extend(
                s,
                pending_edges(scene, s, j - 1),
                s.nodes@[j - 1].input_edges@,
                first_new_handle(scene, s) + created(scene, s, j - 1).len(),
            );
        }
    }
}

/// A queue without a fault has no faulty edge.
pub proof fn lemma_no_fault(s: Snapshot, edges: Seq<Edge>, j: int)
    requires
        first_edge_fault(s, edges) is None,
        0 <= j < edges.len(),
    ensures
        edge_fault(s, edges[j]) is None,
    decreases edges.len(),
{
    if j > 0 {
        lemma_no_fault(s, edges.skip(1), j - 1);
    }
}

/// The nodes created for a prefix of the snapshot are among those created
/// for a longer prefix.
pub proof fn lemma_created_grows(scene: Seq<Visual>, s: Snapshot, i: int, j: int)
    requires
        0 <= i <= j,
    ensures
        created(scene, s, i).len() <= created(scene, s, j).len(),
        forall|k: int|
            0 <= k < created(scene, s, i).len() ==> created(scene, s, j)[k] == created(
                scene,
                s,
                i,
            )[k],
    decreases j - i,
{
    if i < j {
        lemma_created_grows(scene, s, i, j - 1);
    }
}

/// The created nodes carry the positions of the snapshot's absent nodes, in
/// ascending order.
pub proof fn lemma_created_positions(scene: Seq<Visual>, s: Snapshot, upto: int)
    requires
        0 <= upto <= s.nodes@.len(),
    ensures
        forall|k: int|
            0 <= k < created(scene, s, upto).len() ==> {
                &&& 0 <= (#[trigger] created(scene, s, upto)[k]).index < upto
                &&& is_absent(scene, s, created(scene, s, upto)[k].index as int)
            },
        forall|k: int, l: int|
            0 <= k < l < created(scene, s, upto).len() ==> created(scene, s, upto)[k].index
                < created(scene, s, upto)[l].index,
        forall|i: int|
            0 <= i < upto && is_absent(scene, s, i) ==> exists|k: int|
                0 <= k < created(scene, s, upto).len() && #[trigger] created(
                    scene,
                    s,
                    upto,
                )[k].index == i,
    decreases upto,
{
    if upto > 0 {
        lemma_created_positions(scene, s, upto - 1);
        let before = created(scene, s, upto - 1);
        let now = created(scene, s, upto);
        assert(s.nodes.len() == s.nodes@.len());
        assert forall|i: int| 0 <= i < upto && is_absent(scene, s, i) implies exists|k: int|
            0 <= k < now.len() && #[trigger] now[k].index == i by {
            if i < upto - 1 {
                let k = choose|k: int| 0 <= k < before.len() && #[trigger] before[k].index == i;
                assert(now[k].index == i);
            } else {
                assert(now[before.len() as int].index == i);
            }
        }
    }
}

/// After the endpoints of a diff are in place, the scene holds a node for
/// every node of the snapshot.
pub proof fn lemma_sources_present(scene: Seq<Visual>, s: Snapshot, i: int)
    requires
        0 <= i < s.nodes@.len(),
    ensures
        has_node(with_endpoints(scene, s), s.nodes@[i].address),
{
    let ends = with_endpoints(scene, s);
    let id = s.nodes@[i].address;
    if is_absent(scene, s, i) {
        let all = created(scene, s, s.nodes@.len() as int);
        lemma_created_positions(scene, s, s.nodes@.len() as int);
        let k = choose|k: int| 0 <= k < all.len() && #[trigger] all[k].index == i;
        let h = first_new_handle(scene, s) + k;
        assert(ends[h] == all.map_values(entity_of(s))[k]);
        assert(is_node_with(ends, h, id));
    } else {
        let h = choose|h: int| is_node_with(scene, h, id);
        assert(ends[h] == scene[h]);
        assert(is_node_with(ends, h, id));
    }
}

/// Entities added behind a scene that already holds a node for `id` do not
/// change which node is found first.
pub proof fn lemma_first_node_of_prefix(ends: Seq<Visual>, added: Seq<Visual>, h: int, id: u64)
    requires
        has_node(ends, id),
        is_first_node(ends + added, h, id),
    ensures
        h == first_node(ends, id),
        is_first_node(ends, h, id),
{
    let all = ends + added;
    let w = choose|w: int| is_node_with(ends, w, id);
    assert(all[w] == ends[w]);
    assert(is_node_with(all, w, id));
    assert(h <= w);
    assert(all[h] == ends[h]);
    assert forall|j: int| 0 <= j < h implies !is_node_with(ends, j, id) by {
        assert(all[j] == ends[j]);
        assert(!is_node_with(all, j, id));
    }
    assert(is_first_node(ends, h, id));
}

/// A diff without a fault has none among the requests of any prefix of the
/// snapshot.
pub proof fn lemma_no_fault_prefix(scene: Seq<Visual>, s: Snapshot, i: int)
    requires
        0 <= i <= s.nodes@.len(),
        first_fault(s, requests(scene, s)) is None,
    ensures
        first_fault(s, pending_edges(scene, s, i)) is None,
{
    if first_fault(s, pending_edges(scene, s, i)) is Some {
        lemma_fault_persists(scene, s, i, s.nodes@.len() as int);
    }
}

/// A diff of a fully materialised snapshot creates no node and requests no
/// edge.
pub proof fn lemma_nothing_to_create(scene: Seq<Visual>, s: Snapshot, upto: int)
    requires
        fully_materialized(scene, s),
        0 <= upto <= s.nodes@.len(),
    ensures
        created(scene, s, upto).len() == 0,
        pending_edges(scene, s, upto).len() == 0,
    decreases upto,
{
    if upto > 0 {
        lemma_nothing_to_create(scene, s, upto - 1);
    }
}

/// Diffing is idempotent on a materialised snapshot: when the scene already
/// holds the graph output and a node for every node of the snapshot, the
/// diff requests nothing, cannot fail, and leaves the scene as it is.
pub proof fn lemma_materialized_diff_is_empty(scene: Seq<Visual>, s: Snapshot)
    requires
        fully_materialized(scene, s),
    ensures
        created(scene, s, s.nodes@.len() as int).len() == 0,
        requests(scene, s).len() == 0,
        first_fault(s, requests(scene, s)) is None,
        materialize(scene, s) == scene,
{
    lemma_nothing_to_create(scene, s, s.nodes@.len() as int);
    assert(edges_of(requests(scene, s)) =~= Seq::<Edge>::empty());
    assert(materialize(scene, s) =~= scene);
}

/// A diff materialises its snapshot fully, so a second diff against the same
/// snapshot changes nothing.
pub proof fn lemma_diff_twice(scene: Seq<Visual>, s: Snapshot)
    ensures
        fully_materialized(materialize(scene, s), s),
        materialize(materialize(scene, s), s) == materialize(scene, s),
{
    let ends = with_endpoints(scene, s);
    let after = materialize(scene, s);
    if has_graph_output(scene) {
        let h = choose|h: int| is_graph_output(scene, h);
        assert(after[h] == scene[h]);
        assert(is_graph_output(after, h));
    } else {
        let h = scene.len() as int;
        assert(after[h] == output_entity(s));
        assert(is_graph_output(after, h));
    }
    assert forall|i: int| 0 <= i < s.nodes@.len() implies !is_absent(after, s, i) by {
        lemma_sources_present(scene, s, i);
        let h = choose|h: int| is_node_with(ends, h, s.nodes@[i].address);
        assert(after[h] == ends[h]);
        assert(is_node_with(after, h, s.nodes@[i].address));
    }
    lemma_materialized_diff_is_empty(after, s);
}

/// Each node of the snapshot that the scene lacks gets exactly one entity:
/// after the diff one node of the scene carries its identifier, that node is
/// new, and its channel counts are the numbers of the snapshot node's input
/// and output labels.
pub proof fn lemma_absent_node_created_once(scene: Seq<Visual>, s: Snapshot, i: int)
    requires
        s.ids_distinct(),
        0 <= i < s.nodes@.len(),
        is_absent(scene, s, i),
    ensures
        exists|h: int|
            {
                &&& scene.len() <= h < materialize(scene, s).len()
                &&& #[trigger] materialize(scene, s)[h] == node_entity(s.nodes@[i])
                &&& forall|g: int|
                    is_node_with(materialize(scene, s), g, s.nodes@[i].address) ==> g == h
            },
{
    let n = s.nodes@.len() as int;
    let all = created(scene, s, n);
    let ends = with_endpoints(scene, s);
    let after = materialize(scene, s);
    let id = s.nodes@[i].address;
    let first = first_new_handle(scene, s);
    lemma_created_positions(scene, s, n);
    let k = choose|k: int| 0 <= k < all.len() && #[trigger] all[k].index == i;
    let h = first + k;
    assert(after[h] == all.map_values(entity_of(s))[k]);
    assert forall|g: int| is_node_with(after, g, id) implies g == h by {
        if g < scene.len() {
            assert(after[g] == scene[g]);
            assert(is_node_with(scene, g, id));
        } else if g < first {
            assert(after[g] == output_entity(s));
        } else if g < ends.len() {
            let l = g - first;
            assert(after[g] == all.map_values(entity_of(s))[l]);
            let other = all[l].index as int;
            assert(s.nodes@[other].address == id);
            if other < i {
                assert(s.nodes@[other].address != s.nodes@[i].address);
            } else if i < other {
                assert(s.nodes@[i].address != s.nodes@[other].address);
            }
            if l < k {
                assert(all[l].index < all[k].index);
            } else if k < l {
                assert(all[k].index < all[l].index);
            }
        } else {
            let q = requests(scene, s)[g - ends.len()];
            assert(after[g] == link(ends, s, q));
        }
    }
}


/// A diff removes and changes nothing: every entity of the scene keeps its
/// handle.
pub proof fn lemma_diff_keeps_entities(scene: Seq<Visual>, s: Snapshot, h: int)
    requires
        0 <= h < scene.len(),
    ensures
        scene.len() <= materialize(scene, s).len(),
        materialize(scene, s)[h] == scene[h],
{
}

/// The graph output is created once: after a diff the scene has one, and it
/// is the one the scene had before, if it had one.
pub proof fn lemma_graph_output_created_once(scene: Seq<Visual>, s: Snapshot, h: int)
    requires
        is_graph_output(materialize(scene, s), h),
    ensures
        has_graph_output(scene) ==> is_graph_output(scene, h),
        !has_graph_output(scene) ==> h == scene.len(),
{
    let ends = with_endpoints(scene, s);
    let after = materialize(scene, s);
    let first = first_new_handle(scene, s);
    if h < scene.len() {
        assert(after[h] == scene[h]);
        assert(is_graph_output(scene, h));
    } else if h < first {
    } else if h < ends.len() {
        let all = created(scene, s, s.nodes@.len() as int);
        assert(after[h] == all.map_values(entity_of(s))[h - first]);
    } else {
        let q = requests(scene, s)[h - ends.len()];
        assert(after[h] == link(ends, s, q));
    }
}

/// Identifiers stay unique: when no two nodes of the scene and no two nodes
/// of the snapshot share an identifier, no two nodes of the scene do after
/// the diff.
pub proof fn lemma_diff_keeps_identifiers_unique(scene: Seq<Visual>, s: Snapshot)
    requires
        nodes_distinct(scene),
        s.ids_distinct(),
    ensures
        nodes_distinct(materialize(scene, s)),
{
    let after = materialize(scene, s);
    assert forall|g: int, h: int, id: u64|
        is_node_with(after, g, id) && is_node_with(after, h, id) implies g == h by {
        lemma_node_origin(scene, s, g, id);
        lemma_node_origin(scene, s, h, id);
        if g < scene.len() && h < scene.len() {
            assert(after[g] == scene[g] && after[h] == scene[h]);
        } else if g >= scene.len() && h >= scene.len() {
            let i = choose|i: int| 0 <= i < s.nodes@.len() && s.nodes@[i].address == id;
            lemma_absent_node_created_once(scene, s, i);
        }
    }
}

/// A node of the scene after a diff was there before, or stands for an
/// absent node of the snapshot.
proof fn lemma_node_origin(scene: Seq<Visual>, s: Snapshot, h: int, id: u64)
    requires
        is_node_with(materialize(scene, s), h, id),
    ensures
        h < scene.len() ==> is_node_with(scene, h, id),
        h >= scene.len() ==> !has_node(scene, id) && exists|i: int|
            0 <= i < s.nodes@.len() && s.nodes@[i].address == id,
{
    let n = s.nodes@.len() as int;
    let ends = with_endpoints(scene, s);
    let after = materialize(scene, s);
    let first = first_new_handle(scene, s);
    let all = created(scene, s, n);
    if h < scene.len() {
        assert(after[h] == scene[h]);
    } else if h < first {
        assert(after[h] == output_entity(s));
    } else if h < ends.len() {
        lemma_created_positions(scene, s, n);
        assert(after[h] == all.map_values(entity_of(s))[h - first]);
        let i = all[h - first].index as int;
        assert(s.nodes@[i].address == id);
        assert(is_absent(scene, s, i));
    } else {
        let q = requests(scene, s)[h - ends.len()];
        assert(after[h] == link(ends, s, q));
    }
}

} // verus!
