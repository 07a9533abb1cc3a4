//! What holds of every column layout: it places exactly what reaches the
//! graph output, it does not depend on the order of the edges, and it is
//! unique.

use crate::layout::{
    at_distance, enters, feeds, is_column, is_column_layout, is_link, mentioned_before,
    nothing_at, reaches,
};
use crate::scene::{edge_in_order, is_graph_output, well_formed, Visual};
use vstd::prelude::*;

verus! {

/// An entity has at most one distance.
pub proof fn lemma_distance_unique(scene: Seq<Visual>, u: int, sink: int, d1: nat, d2: nat)
    requires
        at_distance(scene, u, sink, d1),
        at_distance(scene, u, sink, d2),
    ensures
        d1 == d2,
{
}

/// An edge into an entity that reaches the sink extends the chain by one.
pub proof fn lemma_reaches_step(scene: Seq<Visual>, e: int, u: int, w: int, sink: int, hops: nat)
    requires
        is_link(scene, e, u, w),
        reaches(scene, w, sink, hops),
    ensures
        reaches(scene, u, sink, hops + 1),
{
    assert(feeds(scene, u, w));
}

/// Where hop counts exist, a smallest one exists.
pub proof fn lemma_distance_exists(scene: Seq<Visual>, u: int, sink: int, hops: nat)
    requires
        reaches(scene, u, sink, hops),
    ensures
        exists|d: nat| d <= hops && at_distance(scene, u, sink, d),
    decreases hops,
{
    if forall|j: nat| j < hops ==> !reaches(scene, u, sink, j) {
        assert(at_distance(scene, u, sink, hops));
    } else {
        let j = choose|j: nat| j < hops && reaches(scene, u, sink, j);
        lemma_distance_exists(scene, u, sink, j);
    }
}

/// Distances have no gaps: an entity at a distance above 0 feeds one that
/// is one hop nearer.
pub proof fn lemma_nearer_neighbour(scene: Seq<Visual>, v: int, sink: int, d: nat)
    requires
        at_distance(scene, v, sink, d),
        d > 0,
    ensures
        exists|w: int| feeds(scene, v, w) && at_distance(scene, w, sink, (d - 1) as nat),
{
    let near = (d - 1) as nat;
    let w = choose|w: int| #[trigger] feeds(scene, v, w) && reaches(scene, w, sink, near);
    assert forall|j: nat| j < near implies !reaches(scene, w, sink, j) by {
        if reaches(scene, w, sink, j) {
            assert(reaches(scene, v, sink, j + 1));
        }
    }
    assert(at_distance(scene, w, sink, near));
}

/// Where no entity is at distance `d`, none is farther either.
pub proof fn lemma_nothing_beyond(scene: Seq<Visual>, sink: int, d: nat, far: nat)
    requires
        nothing_at(scene, sink, d),
        d <= far,
    ensures
        nothing_at(scene, sink, far),
    decreases far,
{
    if d < far {
        lemma_nothing_beyond(scene, sink, d, (far - 1) as nat);
        assert forall|v: int| !at_distance(scene, v, sink, far) by {
            if at_distance(scene, v, sink, far) {
                lemma_nearer_neighbour(scene, v, sink, far);
            }
        }
    }
}

/// The layout places exactly what reaches the graph output: an entity with
/// a chain of one or more edges to the output stands in the column of its
/// distance, and every member of a column has such a chain.
pub proof fn lemma_placed_iff_reaches(
    scene: Seq<Visual>,
    sink: int,
    columns: Seq<Vec<usize>>,
    v: usize,
)
    requires
        well_formed(scene),
        is_graph_output(scene, sink),
        is_column_layout(scene, sink, columns),
    ensures
        (exists|hops: nat| hops > 0 && reaches(scene, v as int, sink, hops)) <==> (exists|k: int|
            0 <= k < columns.len() && (#[trigger] columns[k])@.contains(v)),
{
    if exists|hops: nat| hops > 0 && reaches(scene, v as int, sink, hops) {
        let hops = choose|hops: nat| hops > 0 && reaches(scene, v as int, sink, hops);
        let w = choose|w: int| #[trigger]
            feeds(scene, v as int, w) && reaches(scene, w, sink, (hops - 1) as nat);
        let e = choose|e: int| is_link(scene, e, v as int, w);
        assert(edge_in_order(scene, e));
        lemma_distance_exists(scene, v as int, sink, hops);
        let d = choose|d: nat| d <= hops && at_distance(scene, v as int, sink, d);
        assert(d > 0);
        if d > columns.len() {
            lemma_nothing_beyond(scene, sink, (columns.len() + 1) as nat, d);
        }
        let k = d - 1;
        assert(is_column(scene, sink, d, columns[k]@));
        let i = choose|i: int| 0 <= i < columns[k]@.len() && #[trigger] columns[k]@[i] == v as int;
        assert(columns[k]@[i] == v);
        assert(columns[k]@.contains(v));
    }
    if exists|k: int| 0 <= k < columns.len() && (#[trigger] columns[k])@.contains(v) {
        let k = choose|k: int| 0 <= k < columns.len() && (#[trigger] columns[k])@.contains(v);
        let d = (k + 1) as nat;
        assert(is_column(scene, sink, d, columns[k]@));
        let i = choose|i: int| 0 <= i < columns[k]@.len() && columns[k]@[i] == v;
        assert(columns[k]@[i] == v as int);
        assert(at_distance(scene, v as int, sink, d));
        assert(reaches(scene, v as int, sink, d));
    }
}

/// Every member of a column is a node of the scene.
pub proof fn lemma_members_are_nodes(scene: Seq<Visual>, sink: int, d: nat, column: Seq<usize>, i: int)
    requires
        well_formed(scene),
        d > 0,
        is_column(scene, sink, d, column),
        0 <= i < column.len(),
    ensures
        column[i] < scene.len(),
        scene[column[i] as int] is Node,
{
    let v = column[i] as int;
    assert(column[i] == v);
    assert(at_distance(scene, v, sink, d));
    let w = choose|w: int| #[trigger] feeds(scene, v, w) && reaches(scene, w, sink, (d - 1) as nat);
    let e = choose|e: int| is_link(scene, e, v, w);
    assert(edge_in_order(scene, e));
}

/// Hop counts depend on which entities feed which, not on the order or the
/// number of the edges that say so.
pub proof fn lemma_reaches_ignores_edge_order(
    a: Seq<Visual>,
    b: Seq<Visual>,
    sink: int,
    hops: nat,
)
    requires
        forall|u: int, w: int| feeds(a, u, w) <==> feeds(b, u, w),
    ensures
        forall|v: int| reaches(a, v, sink, hops) <==> reaches(b, v, sink, hops),
    decreases hops,
{
    if hops > 0 {
        let less = (hops - 1) as nat;
        lemma_reaches_ignores_edge_order(a, b, sink, less);
        assert forall|v: int| reaches(a, v, sink, hops) <==> reaches(b, v, sink, hops) by {
            if reaches(a, v, sink, hops) {
                let w = choose|w: int| #[trigger] feeds(a, v, w) && reaches(a, w, sink, less);
                assert(feeds(b, v, w) && reaches(b, w, sink, less));
            }
            if reaches(b, v, sink, hops) {
                let w = choose|w: int| #[trigger] feeds(b, v, w) && reaches(b, w, sink, less);
                assert(feeds(a, v, w) && reaches(a, w, sink, less));
            }
        }
    }
}

/// The distance of an entity depends on which entities feed which, not on
/// the order or the number of the edges that say so.
pub proof fn lemma_distance_ignores_edge_order(
    a: Seq<Visual>,
    b: Seq<Visual>,
    sink: int,
    v: int,
    d: nat,
)
    requires
        forall|u: int, w: int| feeds(a, u, w) <==> feeds(b, u, w),
    ensures
        at_distance(a, v, sink, d) <==> at_distance(b, v, sink, d),
{
    lemma_reaches_ignores_edge_order(a, b, sink, d);
    assert forall|j: nat| j < d implies (reaches(a, v, sink, j) <==> reaches(b, v, sink, j)) by {
        lemma_reaches_ignores_edge_order(a, b, sink, j);
    }
}

/// Column assignment is independent of the order of the edges: when two
/// scenes link the same entities, their layouts have the same number of
/// columns and place every entity in the same column. Only the order within
/// a column follows the order of the edges.
pub proof fn lemma_columns_ignore_edge_order(
    a: Seq<Visual>,
    b: Seq<Visual>,
    sink: int,
    in_a: Seq<Vec<usize>>,
    in_b: Seq<Vec<usize>>,
)
    requires
        forall|u: int, w: int| feeds(a, u, w) <==> feeds(b, u, w),
        is_column_layout(a, sink, in_a),
        is_column_layout(b, sink, in_b),
    ensures
        in_a.len() == in_b.len(),
        forall|k: int, v: usize|
            0 <= k < in_a.len() ==> (in_a[k]@.contains(v) <==> in_b[k]@.contains(v)),
{
    if in_a.len() < in_b.len() {
        let d = (in_a.len() + 1) as nat;
        let column = in_b[in_a.len() as int]@;
        assert(is_column(b, sink, d, column));
        let v = column[0] as int;
        assert(at_distance(b, v, sink, d));
        lemma_distance_ignores_edge_order(a, b, sink, v, d);
    }
    if in_b.len() < in_a.len() {
        let d = (in_b.len() + 1) as nat;
        let column = in_a[in_b.len() as int]@;
        assert(is_column(a, sink, d, column));
        let v = column[0] as int;
        assert(at_distance(a, v, sink, d));
        lemma_distance_ignores_edge_order(a, b, sink, v, d);
    }
    assert forall|k: int, v: usize| 0 <= k < in_a.len() implies (in_a[k]@.contains(v)
        <==> in_b[k]@.contains(v)) by {
        let d = (k + 1) as nat;
        assert(is_column(a, sink, d, in_a[k]@));
        assert(is_column(b, sink, d, in_b[k]@));
        lemma_distance_ignores_edge_order(a, b, sink, v as int, d);
        if in_a[k]@.contains(v) {
            let i = choose|i: int| 0 <= i < in_a[k]@.len() && in_a[k]@[i] == v;
            assert(in_a[k]@[i] == v as int);
            assert(at_distance(a, v as int, sink, d));
            let j = choose|j: int| 0 <= j < in_b[k]@.len() && #[trigger] in_b[k]@[j] == v as int;
            assert(in_b[k]@[j] == v);
        }
        if in_b[k]@.contains(v) {
            let i = choose|i: int| 0 <= i < in_b[k]@.len() && in_b[k]@[i] == v;
            assert(in_b[k]@[i] == v as int);
            assert(at_distance(b, v as int, sink, d));
            let j = choose|j: int| 0 <= j < in_a[k]@.len() && #[trigger] in_a[k]@[j] == v as int;
            assert(in_a[k]@[j] == v);
        }
    }
}

/// Of two entities, at most one is mentioned before the other.
proof fn lemma_mentioned_before_one_way(scene: Seq<Visual>, sink: int, d: nat, u: int, v: int)
    requires
        mentioned_before(scene, sink, d, u, v),
    ensures
        !mentioned_before(scene, sink, d, v, u),
{
    let e = choose|e: int|
        #[trigger] enters(scene, sink, e, u, d) && forall|f: int|
            0 <= f <= e ==> !enters(scene, sink, f, v, d);
    if mentioned_before(scene, sink, d, v, u) {
        let g = choose|g: int|
            #[trigger] enters(scene, sink, g, v, d) && forall|f: int|
                0 <= f <= g ==> !enters(scene, sink, f, u, d);
        if e <= g {
            assert(!enters(scene, sink, e, u, d));
        } else {
            assert(!enters(scene, sink, g, v, d));
        }
    }
}

/// In a strictly increasing sequence of positions below `m`, each member is
/// at least its own position and leaves room for those behind it.
proof fn lemma_increasing_positions(p: Seq<int>, m: int, i: int)
    requires
        forall|i: int| 0 <= i < p.len() ==> 0 <= #[trigger] p[i] < m,
        forall|i: int, j: int| 0 <= i < j < p.len() ==> p[i] < p[j],
        0 <= i < p.len(),
    ensures
        i <= p[i],
        p[i] + (p.len() - 1 - i) < m,
{
    lemma_increasing_positions_low(p, m, i);
    lemma_increasing_positions_high(p, m, i);
}

/// Each member of a strictly increasing sequence is at least its position.
proof fn lemma_increasing_positions_low(p: Seq<int>, m: int, i: int)
    requires
        forall|i: int| 0 <= i < p.len() ==> 0 <= #[trigger] p[i] < m,
        forall|i: int, j: int| 0 <= i < j < p.len() ==> p[i] < p[j],
        0 <= i < p.len(),
    ensures
        i <= p[i],
    decreases i,
{
    if i > 0 {
        lemma_increasing_positions_low(p, m, i - 1);
    }
}

/// Each member of a strictly increasing sequence leaves room for those
/// behind it.
proof fn lemma_increasing_positions_high(p: Seq<int>, m: int, i: int)
    requires
        forall|i: int| 0 <= i < p.len() ==> 0 <= #[trigger] p[i] < m,
        forall|i: int, j: int| 0 <= i < j < p.len() ==> p[i] < p[j],
        0 <= i < p.len(),
    ensures
        p[i] + (p.len() - 1 - i) < m,
    decreases p.len() - i,
{
    if i + 1 < p.len() {
        lemma_increasing_positions_high(p, m, i + 1);
    }
}

/// Where the members of column `x` stand in column `y`.
spec fn positions_in(x: Seq<usize>, y: Seq<usize>) -> Seq<int> {
    Seq::new(x.len(), |i: int| choose|j: int| 0 <= j < y.len() && y[j] == x[i])
}

/// The members of one column of a distance stand in any other column of
/// that distance, in the same order.
proof fn lemma_positions_increase(scene: Seq<Visual>, sink: int, d: nat, x: Seq<usize>, y: Seq<usize>)
    requires
        is_column(scene, sink, d, x),
        is_column(scene, sink, d, y),
    ensures
        forall|i: int|
            0 <= i < x.len() ==> 0 <= #[trigger] positions_in(x, y)[i] < y.len() && y[positions_in(
                x,
                y,
            )[i]] == x[i],
        forall|i: int, j: int|
            0 <= i < j < x.len() ==> positions_in(x, y)[i] < positions_in(x, y)[j],
{
    let p = positions_in(x, y);
    assert forall|i: int| 0 <= i < x.len() implies 0 <= #[trigger] p[i] < y.len() && y[p[i]]
        == x[i] by {
        assert(x[i] == x[i] as int);
        assert(at_distance(scene, x[i] as int, sink, d));
        let j = choose|j: int| 0 <= j < y.len() && #[trigger] y[j] == x[i] as int;
        assert(0 <= j < y.len() && y[j] == x[i]);
    }
    assert forall|i: int, j: int| 0 <= i < j < x.len() implies p[i] < p[j] by {
        assert(0 <= p[i] < y.len() && y[p[i]] == x[i]);
        assert(0 <= p[j] < y.len() && y[p[j]] == x[j]);
        assert(x[i] != x[j]);
        if p[j] < p[i] {
            assert(mentioned_before(scene, sink, (d - 1) as nat, y[p[j]] as int, y[p[i]] as int));
            assert(mentioned_before(scene, sink, (d - 1) as nat, x[i] as int, x[j] as int));
            lemma_mentioned_before_one_way(scene, sink, (d - 1) as nat, x[i] as int, x[j] as int);
        }
    }
}

/// A distance has one column only.
pub proof fn lemma_column_unique(scene: Seq<Visual>, sink: int, d: nat, x: Seq<usize>, y: Seq<usize>)
    requires
        is_column(scene, sink, d, x),
        is_column(scene, sink, d, y),
    ensures
        x == y,
{
    let p = positions_in(x, y);
    let q = positions_in(y, x);
    lemma_positions_increase(scene, sink, d, x, y);
    lemma_positions_increase(scene, sink, d, y, x);
    lemma_increasing_positions(p, y.len() as int, 0);
    lemma_increasing_positions(q, x.len() as int, 0);
    assert(x.len() == y.len());
    assert forall|i: int| 0 <= i < x.len() implies x[i] == y[i] by {
        lemma_increasing_positions(p, y.len() as int, i);
    }
    assert(x =~= y);
}

/// The column layout of a scene is unique: laying the same scene out again
/// gives the same columns with the same members in the same order.
pub proof fn lemma_layout_unique(
    scene: Seq<Visual>,
    sink: int,
    one: Seq<Vec<usize>>,
    other: Seq<Vec<usize>>,
)
    requires
        is_column_layout(scene, sink, one),
        is_column_layout(scene, sink, other),
    ensures
        one.len() == other.len(),
        forall|k: int| 0 <= k < one.len() ==> one[k]@ == other[k]@,
{
    lemma_columns_ignore_edge_order(scene, scene, sink, one, other);
    assert forall|k: int| 0 <= k < one.len() implies one[k]@ == other[k]@ by {
        lemma_column_unique(scene, sink, (k + 1) as nat, one[k]@, other[k]@);
    }
}

} // verus!
