use knyst_visualiser::placement::{PlacedColumn, Slot};
use knyst_visualiser::scene::Scene;
use knyst_visualiser::snapshot::{Edge, EdgeSource, NodeRecord, Snapshot};

fn edge_from(index: usize) -> Edge {
    Edge { source: EdgeSource::Node(index), from_index: 0, to_index: 0 }
}

/// A node with `rows` input channels, one output channel and edges from `sources`.
fn node_with(address: u64, rows: usize, sources: &[usize]) -> NodeRecord {
    NodeRecord {
        address,
        name: "n".to_string(),
        input_channels: (0..rows).map(|i| format!("in{}", i)).collect(),
        output_channels: vec!["out".to_string()],
        input_edges: sources.iter().map(|&i| edge_from(i)).collect(),
    }
}

/// A scene whose graph output has handle 0 and whose node `i` has handle `i + 1`.
fn scene_of(num_outputs: usize, output_sources: &[usize], nodes: &[(usize, &[usize])]) -> Scene {
    let snapshot = Snapshot {
        graph_id: 0,
        num_outputs,
        graph_output_input_edges: output_sources.iter().map(|&i| edge_from(i)).collect(),
        nodes: nodes
            .iter()
            .enumerate()
            .map(|(i, (rows, sources))| node_with(10 + i as u64, *rows, sources))
            .collect(),
    };
    let mut scene = Scene::new();
    scene.apply_snapshot(&snapshot).unwrap();
    scene
}

fn slots(column: &PlacedColumn) -> Vec<Slot> {
    column.slots.clone()
}

/// The exact places of the members as fractions `(numerator, denominator)`.
fn downs(column: &PlacedColumn) -> Vec<(u128, u128)> {
    column
        .slots
        .iter()
        .enumerate()
        .map(|(i, slot)| (slot.above * column.shares + i as u128 * column.gap, column.shares))
        .collect()
}

#[test]
fn the_graph_output_reaches_as_far_as_a_node_with_its_outputs() {
    assert_eq!(Scene::new().anchor_extent_of(), 0);
    assert_eq!(scene_of(0, &[], &[]).anchor_extent_of(), 15);
    assert_eq!(scene_of(1, &[], &[]).anchor_extent_of(), 15);
    assert_eq!(scene_of(4, &[], &[]).anchor_extent_of(), 60);
}

#[test]
fn bodies_of_nodes_have_a_height_and_nothing_else_has() {
    let scene = scene_of(3, &[0], &[(2, &[])]);
    assert_eq!(scene.body_height_of(0), 0); // the graph output
    assert_eq!(scene.body_height_of(1), 30); // the node
    assert_eq!(scene.body_height_of(2), 0); // the edge
    assert_eq!(scene.body_height_of(3), 0); // no entity
}

#[test]
fn a_column_that_reaches_far_enough_keeps_the_fixed_gap() {
    let scene = scene_of(1, &[0, 1], &[(1, &[]), (3, &[])]);
    let columns = scene.column_layout();
    assert_eq!(columns, vec![vec![1, 2]]);
    let placed = scene.place_columns(&columns).unwrap();
    assert_eq!(placed.len(), 1);
    assert_eq!(placed[0].left, 180);
    assert_eq!(placed[0].gap, 10);
    assert_eq!(placed[0].shares, 1);
    // 15 + 10 + 45 + 10
    assert_eq!(placed[0].extent, 80);
    assert_eq!(
        slots(&placed[0]),
        vec![
            Slot { handle: 1, height: 15, above: 0 },
            Slot { handle: 2, height: 45, above: 15 },
        ]
    );
    assert_eq!(downs(&placed[0]), vec![(0, 1), (25, 1)]);
}

#[test]
fn a_short_column_is_spread_to_the_extent_of_the_one_before() {
    // The output has 4 rows. n0 feeds it; n1 and n2 feed n0; n3 and n4 feed n1.
    let scene = scene_of(
        4,
        &[0],
        &[(1, &[1, 2]), (1, &[3, 4]), (2, &[]), (1, &[]), (1, &[])],
    );
    let columns = scene.column_layout();
    assert_eq!(columns, vec![vec![1], vec![2, 3], vec![4, 5]]);
    let placed = scene.place_columns(&columns).unwrap();

    // One body of height 15 under an output that reaches 60: one gap of 45.
    assert_eq!(placed[0].left, 180);
    assert_eq!((placed[0].gap, placed[0].shares), (45, 1));
    assert_eq!(placed[0].extent, 60);
    assert_eq!(slots(&placed[0]), vec![Slot { handle: 1, height: 15, above: 0 }]);

    // 15 + 30 and two gaps of 10 reach 65, farther than 60: not spread.
    assert_eq!(placed[1].left, 360);
    assert_eq!((placed[1].gap, placed[1].shares), (10, 1));
    assert_eq!(placed[1].extent, 65);
    assert_eq!(downs(&placed[1]), vec![(0, 1), (25, 1)]);

    // 15 + 15 and two gaps of 10 reach 50 only: two gaps of 35 / 2.
    assert_eq!(placed[2].left, 540);
    assert_eq!((placed[2].gap, placed[2].shares), (35, 2));
    assert_eq!(placed[2].extent, 65);
    assert_eq!(
        slots(&placed[2]),
        vec![
            Slot { handle: 4, height: 15, above: 0 },
            Slot { handle: 5, height: 15, above: 15 },
        ]
    );
    // The second member stands 15 + 17.5 below the output.
    assert_eq!(downs(&placed[2]), vec![(0, 2), (65, 2)]);
}

#[test]
fn a_spread_column_spans_what_the_column_before_spans() {
    let scene = scene_of(7, &[0, 1, 2], &[(1, &[]), (2, &[]), (1, &[])]);
    let columns = scene.column_layout();
    let placed = scene.place_columns(&columns).unwrap();
    let column = &placed[0];
    assert_eq!(scene.anchor_extent_of(), 105);
    // Bodies of 15, 30 and 15, and three gaps of 15.
    assert_eq!((column.gap, column.shares), (45, 3));
    let bodies: u128 = column.slots.iter().map(|slot| slot.height).sum();
    let members = column.slots.len() as u128;
    assert_eq!(bodies * column.shares + members * column.gap, 105 * column.shares);
    assert_eq!(column.extent, 105);
}

#[test]
fn equal_extents_are_not_spread() {
    // The output reaches 30; a column of natural extent 40 reaches farther.
    let scene = scene_of(2, &[0], &[(2, &[])]);
    let placed = scene.place_columns(&scene.column_layout()).unwrap();
    assert_eq!((placed[0].gap, placed[0].shares, placed[0].extent), (10, 1, 40));
    // A column whose natural extent equals the extent before it is kept too.
    let column = scene.place_column(&vec![1], 0, 40).unwrap();
    assert_eq!((column.gap, column.shares, column.extent), (10, 1, 40));
    // One unit more before it, and the column is spread.
    let column = scene.place_column(&vec![1], 0, 41).unwrap();
    assert_eq!((column.gap, column.shares, column.extent), (11, 1, 41));
}

#[test]
fn no_columns_no_places() {
    assert!(Scene::new().place_columns(&vec![]).unwrap().is_empty());
    let scene = scene_of(2, &[], &[(1, &[])]);
    assert!(scene.place_columns(&scene.column_layout()).unwrap().is_empty());
}

#[test]
fn a_column_without_members_reaches_nowhere() {
    let scene = scene_of(2, &[0], &[(1, &[])]);
    let column = scene.place_column(&vec![], 2, 30).unwrap();
    assert_eq!(column.left, 540);
    assert_eq!((column.gap, column.shares, column.extent), (10, 1, 0));
    assert!(column.slots.is_empty());
}

#[test]
fn what_is_no_node_takes_no_room_but_its_gap() {
    let scene = scene_of(1, &[0], &[(1, &[])]);
    // Handle 0 is the graph output, handle 9 is nothing.
    let column = scene.place_column(&vec![0, 1, 9], 0, 0).unwrap();
    assert_eq!(column.extent, 45);
    assert_eq!(
        column.slots,
        vec![
            Slot { handle: 0, height: 0, above: 0 },
            Slot { handle: 1, height: 15, above: 0 },
            Slot { handle: 9, height: 0, above: 15 },
        ]
    );
}

#[test]
fn columns_never_reach_less_far_and_gaps_never_narrow() {
    let scene = scene_of(
        4,
        &[0],
        &[(1, &[1, 2]), (1, &[3, 4]), (2, &[]), (1, &[]), (1, &[5]), (9, &[])],
    );
    let placed = scene.place_columns(&scene.column_layout()).unwrap();
    assert_eq!(placed.len(), 4);
    let mut previous = scene.anchor_extent_of();
    for column in &placed {
        assert!(column.extent >= previous);
        assert!(column.shares > 0);
        assert!(column.gap >= 10 * column.shares);
        previous = column.extent;
    }
    // The last column holds one body of 9 rows: 135 + 10 reaches past 65.
    assert_eq!(placed[3].extent, 145);
    assert_eq!(placed[3].left, 720);
}

#[test]
fn earlier_entities_keep_their_handles_and_places() {
    let mut scene = scene_of(1, &[0], &[(1, &[])]);
    let before = scene.place_columns(&scene.column_layout()).unwrap();
    // The same graph again, with one more node that nothing links yet.
    let again = Snapshot {
        graph_id: 0,
        num_outputs: 1,
        graph_output_input_edges: vec![edge_from(0)],
        nodes: vec![node_with(10, 1, &[]), node_with(11, 1, &[])],
    };
    scene.apply_snapshot(&again).unwrap();
    let after = scene.place_columns(&scene.column_layout()).unwrap();
    assert_eq!(before.len(), 1);
    assert_eq!(after.len(), 1);
    assert_eq!(before[0].slots, after[0].slots);
    assert_eq!(before[0].extent, after[0].extent);
}
