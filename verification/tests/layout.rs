use knyst_visualiser::layout::{
    column_offset, node_height, node_rows, output_height, BODY_WIDTH, COLUMN_WIDTH, OUTPUT_X,
    ROW_GAP, ROW_HEIGHT, SPAWN_EXTENT,
};
use knyst_visualiser::scene::Visual;
use knyst_visualiser::scene::Scene;
use knyst_visualiser::snapshot::{Edge, EdgeSource, NodeRecord, Snapshot};

fn plain_node(address: u64, sources: &[usize]) -> NodeRecord {
    NodeRecord {
        address,
        name: format!("n{}", address),
        input_channels: sources.iter().map(|i| format!("in{}", i)).collect(),
        output_channels: vec!["out".to_string()],
        input_edges: sources.iter().map(|&i| edge_from(i)).collect(),
    }
}

fn edge_from(index: usize) -> Edge {
    Edge { source: EdgeSource::Node(index), from_index: 0, to_index: 0 }
}

/// A scene whose graph output has handle 0 and whose node `i` has handle `i + 1`.
fn scene_of(output_sources: &[usize], node_sources: &[&[usize]]) -> Scene {
    let nodes = node_sources
        .iter()
        .enumerate()
        .map(|(i, sources)| plain_node(100 + i as u64, sources))
        .collect();
    let snapshot = Snapshot {
        graph_id: 0,
        num_outputs: 1,
        graph_output_input_edges: output_sources.iter().map(|&i| edge_from(i)).collect(),
        nodes,
    };
    let mut scene = Scene::new();
    scene.apply_snapshot(&snapshot).unwrap();
    scene
}

fn sorted(column: &Vec<usize>) -> Vec<usize> {
    let mut c = column.clone();
    c.sort();
    c
}

#[test]
fn rows_are_the_larger_count_and_at_least_one() {
    assert_eq!(node_rows(0, 0), 1);
    assert_eq!(node_rows(1, 0), 1);
    assert_eq!(node_rows(2, 1), 2);
    assert_eq!(node_rows(1, 3), 3);
    assert_eq!(node_rows(4, 4), 4);
    assert_eq!(node_rows(usize::MAX, 0), usize::MAX);
}

#[test]
fn height_is_fifteen_per_row() {
    assert_eq!(node_height(0, 0), 15);
    assert_eq!(node_height(2, 1), 30);
    assert_eq!(node_height(1, 3), 45);
    assert_eq!(node_height(usize::MAX, 1), 15 * (usize::MAX as u128));
}

#[test]
fn columns_lie_one_width_apart() {
    assert_eq!(column_offset(0), 0);
    assert_eq!(column_offset(1), 180);
    assert_eq!(column_offset(3), 540);
    assert_eq!(column_offset(usize::MAX), 180 * (usize::MAX as u128));
}

#[test]
fn layout_constants() {
    assert_eq!(ROW_HEIGHT, 15);
    assert_eq!(ROW_GAP, 10);
    assert_eq!(COLUMN_WIDTH, 180);
    assert_eq!(BODY_WIDTH, 160);
    assert_eq!(OUTPUT_X, 500);
    assert_eq!(SPAWN_EXTENT, 300);
}

#[test]
fn the_graph_output_is_one_row_high_per_output() {
    assert_eq!(output_height(0), 0);
    assert_eq!(output_height(1), 15);
    assert_eq!(output_height(4), 60);
}

#[test]
fn every_member_of_a_column_is_a_node() {
    let scene = scene_of(&[0, 1], &[&[2], &[2, 0], &[1]]);
    let columns = scene.column_layout();
    assert_eq!(columns, vec![vec![1, 2], vec![3]]);
    for column in &columns {
        for &member in column {
            assert!(matches!(scene.get(member), Some(Visual::Node(_))));
        }
    }
}

#[test]
fn no_graph_output_no_columns() {
    assert!(Scene::new().column_layout().is_empty());
}

#[test]
fn output_alone_has_no_columns() {
    let scene = scene_of(&[], &[]);
    assert_eq!(scene.len(), 1);
    assert!(scene.column_layout().is_empty());
}

#[test]
fn a_chain_gets_one_column_per_hop() {
    // n0 -> output, n1 -> n0, n2 -> n1
    let scene = scene_of(&[0], &[&[1], &[2], &[]]);
    assert_eq!(scene.column_layout(), vec![vec![1], vec![2], vec![3]]);
}

#[test]
fn the_shortest_chain_decides_the_column() {
    // n0 and n1 feed the output; n1 also feeds n0; n2 feeds n1.
    let scene = scene_of(&[0, 1], &[&[1], &[2], &[]]);
    assert_eq!(scene.column_layout(), vec![vec![1, 2], vec![3]]);
}

#[test]
fn a_cycle_ends_the_layout() {
    // n0 -> output, n1 -> n0, n0 -> n1, n1 -> n1
    let scene = scene_of(&[0], &[&[1], &[0, 1]]);
    assert_eq!(scene.column_layout(), vec![vec![1], vec![2]]);
}

#[test]
fn what_does_not_reach_the_output_is_not_placed() {
    // n0 -> output; n1 -> n2 and n2 -> n1 never reach it.
    let scene = scene_of(&[0], &[&[], &[2], &[1]]);
    assert_eq!(scene.column_layout(), vec![vec![1]]);
}

#[test]
fn a_source_mentioned_twice_is_placed_once() {
    let scene = scene_of(&[1, 0, 1, 0], &[&[], &[]]);
    assert_eq!(scene.column_layout(), vec![vec![2, 1]]);
}

#[test]
fn the_order_in_a_column_follows_the_edges() {
    // Both orders of the edges into the output.
    let a = scene_of(&[0, 1, 2], &[&[], &[], &[]]);
    let b = scene_of(&[2, 0, 1], &[&[], &[], &[]]);
    assert_eq!(a.column_layout(), vec![vec![1, 2, 3]]);
    assert_eq!(b.column_layout(), vec![vec![3, 1, 2]]);
}

#[test]
fn the_column_of_an_entity_ignores_the_order_of_the_edges() {
    // The same links, stated in two orders.
    let a = scene_of(&[0, 1], &[&[2, 3], &[3], &[4], &[], &[]]);
    let b = scene_of(&[1, 0], &[&[3, 2], &[3], &[4], &[], &[]]);
    let ca = a.column_layout();
    let cb = b.column_layout();
    assert_eq!(ca, vec![vec![1, 2], vec![3, 4], vec![5]]);
    assert_eq!(cb, vec![vec![2, 1], vec![4, 3], vec![5]]);
    assert_eq!(ca.len(), cb.len());
    for k in 0..ca.len() {
        assert_eq!(sorted(&ca[k]), sorted(&cb[k]));
    }
}

#[test]
fn laying_out_twice_gives_the_same_columns() {
    let scene = scene_of(&[0, 1], &[&[2], &[2], &[0]]);
    assert_eq!(scene.column_layout(), scene.column_layout());
    assert_eq!(scene.column_layout(), vec![vec![1, 2], vec![3]]);
}

#[test]
fn entities_of_a_later_snapshot_join_the_columns() {
    let mut scene = scene_of(&[0], &[&[]]);
    assert_eq!(scene.column_layout(), vec![vec![1]]);
    // A second snapshot adds a node that feeds... nothing the scene links anew:
    // the edges of known entities are not read again.
    let later = Snapshot {
        graph_id: 0,
        num_outputs: 1,
        graph_output_input_edges: vec![edge_from(0), edge_from(1)],
        nodes: vec![plain_node(100, &[1]), plain_node(200, &[0])],
    };
    scene.apply_snapshot(&later).unwrap();
    // Node 200 (handle 3) has an edge from node 100, so it feeds nothing.
    assert_eq!(scene.column_layout(), vec![vec![1]]);
}
