//! Column layout of a scene: every entity that feeds the graph output,
//! directly or through other entities, is placed in the column of its hop
//! distance from the output.
//!
//! Geometry is in whole layout units. The graph output is the anchor; the
//! column of distance `d` lies `d` column widths to its left.

use crate::layout_laws::{
    lemma_distance_unique, lemma_members_are_nodes, lemma_reaches_step,
};
use crate::scene::{edge_in_order, has_graph_output, is_graph_output, well_formed, Scene, Visual};
use vstd::prelude::*;

verus! {

/// Height of one channel row.
pub const ROW_HEIGHT: u64 = 15;

/// Vertical gap between two bodies of a column.
pub const ROW_GAP: u64 = 10;

/// Horizontal distance between two columns.
pub const COLUMN_WIDTH: u64 = 180;

/// Width of a body.
pub const BODY_WIDTH: u64 = 160;

/// Horizontal position at which the graph output is created; its vertical
/// position is 0.
pub const OUTPUT_X: i64 = 500;

/// New nodes are created inside the square that reaches this far from the
/// origin in both directions.
pub const SPAWN_EXTENT: i64 = 300;

/// Number of channel rows a body with the given channel counts occupies:
/// the larger of the two counts, and at least one.
pub open spec fn rows_of(num_inputs: nat, num_outputs: nat) -> nat {
    if num_inputs >= num_outputs {
        if num_inputs >= 1 {
            num_inputs
        } else {
            1
        }
    } else {
        num_outputs
    }
}

/// Number of channel rows of a body with the given channel counts.
pub fn node_rows(num_inputs: usize, num_outputs: usize) -> (rows: usize)
    ensures
        rows == rows_of(num_inputs as nat, num_outputs as nat),
{
    let larger: usize = if num_inputs >= num_outputs {
        num_inputs
    } else {
        num_outputs
    };
    if larger >= 1 {
        larger
    } else {
        1
    }
}

/// Height of a body with the given channel counts: one row height for each
/// of its rows.
pub fn node_height(num_inputs: usize, num_outputs: usize) -> (height: u128)
    ensures
        height == ROW_HEIGHT * rows_of(num_inputs as nat, num_outputs as nat),
{
    let rows: u128 = node_rows(num_inputs, num_outputs) as u128;
    let unit: u128 = ROW_HEIGHT as u128;
    assert(unit * rows == 15 * rows) by (nonlinear_arith)
        requires
            unit == 15,
    ;
    unit * rows
}

/// Height of the body of a graph output with `num_outputs` outputs: one row
/// height for each output.
pub fn output_height(num_outputs: usize) -> (height: u128)
    ensures
        height == ROW_HEIGHT * num_outputs,
{
    let rows: u128 = num_outputs as u128;
    let unit: u128 = ROW_HEIGHT as u128;
    assert(unit * rows == 15 * rows) by (nonlinear_arith)
        requires
            unit == 15,
    ;
    unit * rows
}

/// How far left of the graph output the column of hop distance `distance`
/// lies.
pub fn column_offset(distance: usize) -> (offset: u128)
    ensures
        offset == COLUMN_WIDTH * distance,
{
    let d: u128 = distance as u128;
    let unit: u128 = COLUMN_WIDTH as u128;
    assert(unit * d == 180 * d) by (nonlinear_arith)
        requires
            unit == 180,
    ;
    unit * d
}

/// The entity at `e` is an edge from `u` to `w`.
pub open spec fn is_link(scene: Seq<Visual>, e: int, u: int, w: int) -> bool {
    &&& 0 <= e < scene.len()
    &&& scene[e] matches Visual::Edge(l)
    &&& l.from_entity == u
    &&& l.to_entity == w
}

/// Some edge of the scene goes from `u` to `w`.
pub open spec fn feeds(scene: Seq<Visual>, u: int, w: int) -> bool {
    exists|e: int| is_link(scene, e, u, w)
}

/// A chain of exactly `hops` edges leads from `u` to `sink`.
pub open spec fn reaches(scene: Seq<Visual>, u: int, sink: int, hops: nat) -> bool
    decreases hops,
{
    if hops == 0 {
        u == sink
    } else {
        exists|w: int| #[trigger] feeds(scene, u, w) && reaches(scene, w, sink, (hops - 1) as nat)
    }
}

/// The shortest chain of edges from `u` to `sink` has `d` edges.
pub open spec fn at_distance(scene: Seq<Visual>, u: int, sink: int, d: nat) -> bool {
    &&& reaches(scene, u, sink, d)
    &&& forall|j: nat| j < d ==> !reaches(scene, u, sink, j)
}

/// The entity at `e` is an edge from `u` to an entity at distance `d`.
pub open spec fn enters(scene: Seq<Visual>, sink: int, e: int, u: int, d: nat) -> bool {
    &&& 0 <= e < scene.len()
    &&& scene[e] matches Visual::Edge(l)
    &&& l.from_entity == u
    &&& at_distance(scene, l.to_entity as int, sink, d)
}

/// The scene's edges mention `u` as a source into distance `d` before they
/// mention `v` as one.
pub open spec fn mentioned_before(scene: Seq<Visual>, sink: int, d: nat, u: int, v: int) -> bool {
    exists|e: int|
        #[trigger] enters(scene, sink, e, u, d) && forall|f: int|
            0 <= f <= e ==> !enters(scene, sink, f, v, d)
}

/// `column` lists the entities at distance `d`, each once, in the order in
/// which the scene's edges first mention them as sources into distance
/// `d - 1`.
pub open spec fn is_column(scene: Seq<Visual>, sink: int, d: nat, column: Seq<usize>) -> bool {
    &&& column.len() > 0
    &&& forall|i: int, j: int| 0 <= i < j < column.len() ==> column[i] != column[j]
    &&& forall|v: int|
        at_distance(scene, v, sink, d) <==> exists|i: int|
            0 <= i < column.len() && #[trigger] column[i] == v
    &&& forall|i: int, j: int|
        0 <= i < j < column.len() ==> mentioned_before(
            scene,
            sink,
            (d - 1) as nat,
            column[i] as int,
            column[j] as int,
        )
}

/// No entity is at distance `d`.
pub open spec fn nothing_at(scene: Seq<Visual>, sink: int, d: nat) -> bool {
    forall|v: int| !at_distance(scene, v, sink, d)
}

/// `columns` is the column layout of the scene around `sink`: its column
/// `k` holds the entities at distance `k + 1`, and no entity lies farther
/// than its last column.
pub open spec fn is_column_layout(scene: Seq<Visual>, sink: int, columns: Seq<Vec<usize>>) -> bool {
    &&& forall|k: int|
        0 <= k < columns.len() ==> is_column(scene, sink, (k + 1) as nat, (#[trigger] columns[k])@)
    &&& nothing_at(scene, sink, (columns.len() + 1) as nat)
}

/// What the search knows after it has placed every entity of distance at
/// most `k`: a recorded depth is the entity's distance, and every entity
/// within `k` hops has one.
spec fn depths_sound(scene: Seq<Visual>, sink: int, depth: Seq<Option<usize>>, k: nat) -> bool {
    &&& depth.len() == scene.len()
    &&& forall|v: int|
        0 <= v < depth.len() ==> (#[trigger] depth[v] matches Some(d) ==> d <= k && at_distance(
            scene,
            v,
            sink,
            d as nat,
        ))
    &&& forall|v: int, d: nat|
        d <= k && #[trigger] reaches(scene, v, sink, d) ==> 0 <= v < depth.len() && depth[v] is Some
}

/// The entity at `f` is an edge from `u` to an entity of recorded depth `k`.
spec fn into(scene: Seq<Visual>, depth: Seq<Option<usize>>, f: int, u: int, k: usize) -> bool {
    &&& 0 <= f < scene.len()
    &&& scene[f] matches Visual::Edge(l)
    &&& l.from_entity == u
    &&& depth[l.to_entity as int] == Some(k)
}

/// `f` is the first edge from `u` to an entity of recorded depth `k`.
spec fn first_into(scene: Seq<Visual>, depth: Seq<Option<usize>>, f: int, u: int, k: usize) -> bool {
    &&& into(scene, depth, f, u, k)
    &&& forall|g: int| 0 <= g < f ==> !into(scene, depth, g, u, k)
}

/// The state of one scan over the scene's first `e` entities: `next` holds
/// the entities placed by this scan, and `entry` the edge that placed each.
spec fn scan_state(
    scene: Seq<Visual>,
    before: Seq<Option<usize>>,
    depth: Seq<Option<usize>>,
    k: usize,
    e: int,
    next: Seq<usize>,
    entry: Seq<int>,
) -> bool {
    &&& before.len() == scene.len()
    &&& depth.len() == scene.len()
    &&& 0 <= e <= scene.len()
    &&& k < usize::MAX
    &&& forall|v: int|
        0 <= v < depth.len() ==> #[trigger] depth[v] == before[v] || (before[v] is None && depth[v]
            == Some((k + 1) as usize))
    &&& forall|v: int|
        0 <= v < depth.len() && before[v] is None && (#[trigger] depth[v]) is Some ==> exists|
            i: int,
        |
            0 <= i < next.len() && #[trigger] next[i] == v
    &&& forall|i: int|
        0 <= i < next.len() ==> before[(#[trigger] next[i]) as int] is None && next[i]
            < depth.len() && depth[next[i] as int] is Some
    &&& entry.len() == next.len()
    &&& forall|i: int|
        0 <= i < entry.len() ==> 0 <= #[trigger] entry[i] < e && first_into(
            scene,
            before,
            entry[i],
            next[i] as int,
            k,
        )
    &&& forall|i: int, j: int| 0 <= i < j < entry.len() ==> entry[i] < entry[j]
    &&& forall|f: int, u: int|
        0 <= f < e && #[trigger] into(scene, before, f, u, k) ==> 0 <= u < depth.len()
            && depth[u] is Some
}

/// An edge lies behind both of its ends.
proof fn lemma_link_in_order(scene: Seq<Visual>, e: int, u: int, w: int)
    requires
        well_formed(scene),
        is_link(scene, e, u, w),
    ensures
        0 <= u < e,
        0 <= w < e,
{
    assert(edge_in_order(scene, e));
}

/// Before a scan, an edge leads into recorded depth `k` just when it leads
/// into distance `k`.
proof fn lemma_into_is_enters(
    scene: Seq<Visual>,
    sink: int,
    depth: Seq<Option<usize>>,
    k: usize,
    f: int,
    u: int,
)
    requires
        well_formed(scene),
        depths_sound(scene, sink, depth, k as nat),
    ensures
        into(scene, depth, f, u, k) <==> enters(scene, sink, f, u, k as nat),
{
    if 0 <= f < scene.len() {
        match scene[f] {
            Visual::Edge(l) => {
                let w = l.to_entity as int;
                assert(is_link(scene, f, l.from_entity as int, w));
                lemma_link_in_order(scene, f, l.from_entity as int, w);
                if at_distance(scene, w, sink, k as nat) {
                    assert(reaches(scene, w, sink, k as nat));
                    assert(depth[w] is Some);
                    lemma_distance_unique(scene, w, sink, k as nat, depth[w]->0 as nat);
                }
            },
            _ => {},
        }
    }
}

/// A scan step over an entity that places nothing.
proof fn lemma_scan_skip(
    scene: Seq<Visual>,
    before: Seq<Option<usize>>,
    depth: Seq<Option<usize>>,
    k: usize,
    e: int,
    next: Seq<usize>,
    entry: Seq<int>,
)
    requires
        well_formed(scene),
        scan_state(scene, before, depth, k, e, next, entry),
        e < scene.len(),
        scene[e] matches Visual::Edge(l) ==> depth[l.to_entity as int] != Some(k)
            || depth[l.from_entity as int] is Some,
    ensures
        scan_state(scene, before, depth, k, e + 1, next, entry),
{
    assert forall|f: int, u: int| 0 <= f < e + 1 && #[trigger] into(scene, before, f, u, k) implies 0
        <= u < depth.len() && depth[u] is Some by {
        if f == e {
            let l = scene[e]->Edge_0;
            assert(is_link(scene, e, u, l.to_entity as int));
            lemma_link_in_order(scene, e, u, l.to_entity as int);
        }
    }
}

/// A scan step over an edge that places its source.
proof fn lemma_scan_place(
    scene: Seq<Visual>,
    before: Seq<Option<usize>>,
    depth: Seq<Option<usize>>,
    k: usize,
    e: int,
    next: Seq<usize>,
    entry: Seq<int>,
    u: usize,
)
    requires
        well_formed(scene),
        scan_state(scene, before, depth, k, e, next, entry),
        e < scene.len(),
        scene[e] matches Visual::Edge(l) && l.from_entity == u && depth[l.to_entity as int] == Some(
            k,
        ),
        u < depth.len(),
        depth[u as int] is None,
    ensures
        scan_state(
            scene,
            before,
            depth.update(u as int, Some((k + 1) as usize)),
            k,
            e + 1,
            next.push(u),
            entry.push(e),
        ),
{
    let l = scene[e]->Edge_0;
    let after = depth.update(u as int, Some((k + 1) as usize));
    let next2 = next.push(u);
    let entry2 = entry.push(e);
    assert(is_link(scene, e, u as int, l.to_entity as int));
    lemma_link_in_order(scene, e, u as int, l.to_entity as int);
    assert(before[u as int] is None);
    assert(before[l.to_entity as int] == Some(k));
    assert(into(scene, before, e, u as int, k));
    assert forall|v: int|
        0 <= v < after.len() && before[v] is None && (#[trigger] after[v]) is Some implies exists|
        i: int,
    |
        0 <= i < next2.len() && #[trigger] next2[i] == v by {
        if v == u {
            assert(next2[next.len() as int] == v);
        } else {
            assert(depth[v] is Some);
            let i = choose|i: int| 0 <= i < next.len() && #[trigger] next[i] == v;
            assert(next2[i] == v);
        }
    }
    assert forall|i: int| 0 <= i < next2.len() implies before[(#[trigger] next2[i]) as int] is None
        && next2[i] < after.len() && after[next2[i] as int] is Some by {
        if i < next.len() {
            assert(next2[i] == next[i]);
        }
    }
    assert forall|i: int| 0 <= i < entry2.len() implies 0 <= #[trigger] entry2[i] < e + 1
        && first_into(scene, before, entry2[i], next2[i] as int, k) by {
        if i < entry.len() {
            assert(entry2[i] == entry[i]);
            assert(next2[i] == next[i]);
        } else {
            assert forall|g: int| 0 <= g < e implies !into(scene, before, g, u as int, k) by {
                if into(scene, before, g, u as int, k) {
                    assert(depth[u as int] is Some);
                }
            }
        }
    }
    assert forall|i: int, j: int| 0 <= i < j < entry2.len() implies entry2[i] < entry2[j] by {
        if j < entry.len() {
            assert(entry2[i] == entry[i] && entry2[j] == entry[j]);
        } else {
            assert(entry2[i] == entry[i]);
        }
    }
    assert forall|f: int, w: int| 0 <= f < e + 1 && #[trigger] into(scene, before, f, w, k) implies 0
        <= w < after.len() && after[w] is Some by {
        if f < e {
            assert(depth[w] is Some);
        }
    }
}

/// What a finished scan has achieved: the depths are sound one hop farther,
/// and the entities it placed form the next column, if it placed any.
proof fn lemma_scan_done(
    scene: Seq<Visual>,
    sink: int,
    before: Seq<Option<usize>>,
    depth: Seq<Option<usize>>,
    k: usize,
    next: Seq<usize>,
    entry: Seq<int>,
)
    requires
        well_formed(scene),
        depths_sound(scene, sink, before, k as nat),
        scan_state(scene, before, depth, k, scene.len() as int, next, entry),
    ensures
        depths_sound(scene, sink, depth, (k + 1) as nat),
        next.len() > 0 ==> is_column(scene, sink, (k + 1) as nat, next),
        next.len() == 0 ==> nothing_at(scene, sink, (k + 1) as nat),
{
    let far = (k + 1) as nat;
    assert forall|v: int| 0 <= v < depth.len() && (#[trigger] depth[v]) is Some implies depth[v]->0
        <= far && at_distance(scene, v, sink, depth[v]->0 as nat) by {
        if before[v] is Some {
            assert(depth[v] == before[v]);
        } else {
            let i = choose|i: int| 0 <= i < next.len() && #[trigger] next[i] == v;
            let f = entry[i];
            assert(first_into(scene, before, f, v, k));
            let l = scene[f]->Edge_0;
            let w = l.to_entity as int;
            assert(is_link(scene, f, v, w));
            lemma_link_in_order(scene, f, v, w);
            assert(before[w] == Some(k));
            assert(at_distance(scene, w, sink, k as nat));
            lemma_reaches_step(scene, f, v, w, sink, k as nat);
            assert forall|j: nat| j < far implies !reaches(scene, v, sink, j) by {
                if reaches(scene, v, sink, j) {
                    assert(before[v] is Some);
                }
            }
        }
    }
    assert forall|v: int, d: nat| d <= far && #[trigger] reaches(scene, v, sink, d) implies 0 <= v
        < depth.len() && depth[v] is Some by {
        if d <= k {
            assert(before[v] is Some);
            assert(depth[v] == before[v]);
        } else {
            let w = choose|w: int| #[trigger]
                feeds(scene, v, w) && reaches(scene, w, sink, (d - 1) as nat);
            let f = choose|f: int| is_link(scene, f, v, w);
            lemma_link_in_order(scene, f, v, w);
            assert(before[w] is Some);
            let dw = before[w]->0;
            if dw == k {
                assert(into(scene, before, f, v, k));
            } else {
                lemma_reaches_step(scene, f, v, w, sink, dw as nat);
                assert(reaches(scene, v, sink, (dw + 1) as nat));
                assert(before[v] is Some);
                assert(depth[v] == before[v]);
            }
        }
    }
    assert(depths_sound(scene, sink, depth, far));
    assert forall|v: int| at_distance(scene, v, sink, far) implies exists|i: int|
        0 <= i < next.len() && #[trigger] next[i] == v by {
        assert(reaches(scene, v, sink, far));
        assert(depth[v] is Some);
        lemma_distance_unique(scene, v, sink, far, depth[v]->0 as nat);
        if before[v] is Some {
            assert(depth[v] == before[v]);
        }
    }
    if next.len() > 0 {
        assert forall|i: int, j: int| 0 <= i < j < next.len() implies next[i] != next[j] by {
            if next[i] == next[j] {
                assert(first_into(scene, before, entry[j], next[j] as int, k));
                assert(into(scene, before, entry[i], next[i] as int, k));
            }
        }
        assert forall|v: int|
            (exists|i: int| 0 <= i < next.len() && #[trigger] next[i] == v) implies at_distance(
            scene,
            v,
            sink,
            far,
        ) by {
            let i = choose|i: int| 0 <= i < next.len() && #[trigger] next[i] == v;
            assert(before[next[i] as int] is None);
            assert(depth[v] is Some);
            assert(depth[v] == Some((k + 1) as usize));
        }
        assert forall|i: int, j: int| 0 <= i < j < next.len() implies mentioned_before(
            scene,
            sink,
            (far - 1) as nat,
            next[i] as int,
            next[j] as int,
        ) by {
            let e = entry[i];
            assert(first_into(scene, before, e, next[i] as int, k));
            assert(first_into(scene, before, entry[j], next[j] as int, k));
            lemma_into_is_enters(scene, sink, before, k, e, next[i] as int);
            assert forall|f: int| 0 <= f <= e implies !enters(
                scene,
                sink,
                f,
                next[j] as int,
                k as nat,
            ) by {
                lemma_into_is_enters(scene, sink, before, k, f, next[j] as int);
            }
            assert(enters(scene, sink, e, next[i] as int, k as nat));
        }
    } else {
        assert forall|v: int| !at_distance(scene, v, sink, far) by {
            if at_distance(scene, v, sink, far) {
                let i = choose|i: int| 0 <= i < next.len() && #[trigger] next[i] == v;
            }
        }
    }
}

/// The placed entities are among the scene's handles, so there are at most
/// as many as the scene has entities.
proof fn lemma_placed_bound(placed: Set<int>, n: nat)
    requires
        forall|v: int| placed.contains(v) ==> 0 <= v < n,
    ensures
        placed.finite(),
        placed.len() <= n,
{
    vstd::set_lib::lemma_int_range(0, n as int);
    vstd::set_lib::lemma_len_subset(placed, vstd::set_lib::set_int_range(0, n as int));
}

impl Scene {
    /// Lays the scene out in columns by hop distance from the graph output.
    ///
    /// Column `k` of the result holds the handles of the entities whose
    /// shortest chain of edges to the graph output has `k + 1` edges, each
    /// once, in the order in which the scene's edges first mention them as
    /// sources into the column before. The columns end where no entity is
    /// one hop farther; what does not reach the graph output is in no
    /// column. Without a graph output there are no columns.
    pub fn column_layout(&self) -> (columns: Vec<Vec<usize>>)
        ensures
            !has_graph_output(self@) ==> columns@.len() == 0,
            forall|sink: int|
                is_graph_output(self@, sink) ==> is_column_layout(self@, sink, columns@),
            forall|k: int, i: int|
                0 <= k < columns@.len() && 0 <= i < columns@[k]@.len() ==> (
                #[trigger] columns@[k]@[i]) < self@.len() && self@[columns@[k]@[i] as int] is Node,
    {
        proof {
            use_type_invariant(self);
        }
        let n = self.len();
        let mut columns: Vec<Vec<usize>> = Vec::new();
        let sink = match self.graph_output() {
            Some(h) => h,
            None => {
                return columns;
            },
        };
        let ghost scene = self@;
        let mut depth: Vec<Option<usize>> = Vec::new();
        while depth.len() < n
            invariant
                depth@.len() <= n,
                forall|v: int| 0 <= v < depth@.len() ==> depth@[v] is None,
            decreases n - depth@.len(),
        {
            depth.push(None);
        }
        depth.set(sink, Some(0));
        let ghost mut placed: Set<int> = set![sink as int];
        proof {
            assert forall|v: int, d: nat| d <= 0 && #[trigger] reaches(scene, v, sink as int, d) implies 0
                <= v < depth@.len() && depth@[v] is Some by {
                assert(v == sink);
            }
            assert(depths_sound(scene, sink as int, depth@, 0));
            lemma_placed_bound(placed, n as nat);
        }
        let mut k: usize = 0;
        let mut growing = true;
        while growing
            invariant
                self@ == scene,
                well_formed(scene),
                n == scene.len(),
                is_graph_output(scene, sink as int),
                depths_sound(scene, sink as int, depth@, k as nat),
                columns@.len() == k,
                forall|j: int|
                    0 <= j < k ==> is_column(scene, sink as int, (j + 1) as nat, (#[trigger] columns@[j])@),
                placed.finite(),
                forall|v: int| placed.contains(v) <==> 0 <= v < n && depth@[v] is Some,
                k < placed.len() <= n,
                !growing ==> nothing_at(scene, sink as int, (k + 1) as nat),
            decreases n - placed.len(), if growing { 1int } else { 0int },
        {
            let ghost before = depth@;
            let ghost placed_before = placed;
            let mut next: Vec<usize> = Vec::new();
            let ghost mut entry: Seq<int> = Seq::empty();
            let mut e: usize = 0;
            while e < n
                invariant
                    self@ == scene,
                    well_formed(scene),
                    n == scene.len(),
                    e <= n,
                    k < n,
                    scan_state(scene, before, depth@, k, e as int, next@, entry),
                    placed.finite(),
                    forall|v: int| placed.contains(v) <==> 0 <= v < n && depth@[v] is Some,
                    placed.len() == placed_before.len() + next@.len(),
                decreases n - e,
            {
                let mut place: Option<usize> = None;
                match self.get(e) {
                    Some(Visual::Edge(l)) => {
                        proof {
                            assert(is_link(scene, e as int, l.from_entity as int, l.to_entity as int));
                            lemma_link_in_order(
                                scene,
                                e as int,
                                l.from_entity as int,
                                l.to_entity as int,
                            );
                        }
                        let into_current = match depth[l.to_entity] {
                            Some(d) => d == k,
                            None => false,
                        };
                        if into_current && depth[l.from_entity].is_none() {
                            place = Some(l.from_entity);
                        }
                    },
                    _ => {},
                }
                match place {
                    Some(u) => {
                        proof {
                            lemma_scan_place(scene, before, depth@, k, e as int, next@, entry, u);
                            entry = entry.push(e as int);
                            placed = placed.insert(u as int);
                        }
                        depth.set(u, Some(k + 1));
                        next.push(u);
                    },
                    None => {
                        proof {
                            lemma_scan_skip(scene, before, depth@, k, e as int, next@, entry);
                        }
                    },
                }
                e += 1;
            }
            proof {
                lemma_scan_done(scene, sink as int, before, depth@, k, next@, entry);
                lemma_placed_bound(placed, n as nat);
            }
            if next.len() == 0 {
                growing = false;
            } else {
                columns.push(next);
                k += 1;
            }
        }
        proof {
            assert forall|other: int| is_graph_output(scene, other) implies is_column_layout(
                scene,
                other,
                columns@,
            ) by {
                assert(other == sink);
            }
            assert forall|k: int, i: int|
                0 <= k < columns@.len() && 0 <= i < columns@[k]@.len() implies (
            #[trigger] columns@[k]@[i]) < scene.len() && scene[columns@[k]@[i] as int] is Node by {
                lemma_members_are_nodes(scene, sink as int, (k + 1) as nat, columns@[k]@, i);
            }
        }
        columns
    }
}

} // verus!
