use knyst_visualiser::diff::DiffError;
use knyst_visualiser::poll::{PollState, Poller};
use knyst_visualiser::snapshot::{Edge, EdgeSource, NodeRecord, Snapshot};
use knyst_visualiser::visualiser::Visualiser;

fn snapshot_with(graph_id: u64, addresses: &[u64]) -> Snapshot {
    Snapshot {
        graph_id,
        num_outputs: 2,
        graph_output_input_edges: vec![],
        nodes: addresses
            .iter()
            .map(|&address| NodeRecord {
                address,
                name: "n".to_string(),
                input_channels: vec![],
                output_channels: vec!["out".to_string()],
                input_edges: vec![],
            })
            .collect(),
    }
}

#[test]
fn a_new_poller_is_idle_and_holds_the_empty_snapshot() {
    let p = Poller::new();
    assert_eq!(p.state, PollState::Idle);
    assert!(p.must_request());
    assert_eq!(p.latest.num_outputs, 0);
    assert!(p.latest.nodes.is_empty());
}

#[test]
fn the_first_frame_issues_the_request() {
    let mut p = Poller::new();
    assert!(!p.frame(None));
    assert_eq!(p.state, PollState::Awaiting);
    assert!(!p.must_request());
}

#[test]
fn the_requesting_frame_takes_nothing_in() {
    let mut p = Poller::new();
    assert!(!p.frame(Some(snapshot_with(5, &[1]))));
    assert_eq!(p.state, PollState::Awaiting);
    assert!(p.latest.nodes.is_empty());
}

#[test]
fn waiting_frames_change_nothing() {
    let mut p = Poller::new();
    p.frame(None);
    assert!(!p.frame(None));
    assert!(!p.frame(None));
    assert_eq!(p.state, PollState::Awaiting);
    assert!(!p.must_request());
}

#[test]
fn an_arrival_replaces_the_latest_snapshot_for_one_frame() {
    let mut p = Poller::new();
    p.frame(None);
    assert!(p.frame(Some(snapshot_with(5, &[1, 2]))));
    assert_eq!(p.state, PollState::Delivered);
    assert_eq!(p.latest.graph_id, 5);
    assert_eq!(p.latest.nodes.len(), 2);
    // The next frame has no new snapshot, and no request is issued again.
    assert!(!p.frame(None));
    assert_eq!(p.state, PollState::Delivered);
    assert!(!p.must_request());
    assert_eq!(p.latest.graph_id, 5);
}

#[test]
fn rearming_makes_the_next_frame_request_again() {
    let mut p = Poller::new();
    assert!(!p.rearm());
    assert_eq!(p.state, PollState::Idle);
    p.frame(None);
    assert!(!p.rearm());
    assert_eq!(p.state, PollState::Awaiting);
    p.frame(Some(snapshot_with(1, &[])));
    assert!(p.rearm());
    assert_eq!(p.state, PollState::Idle);
    assert!(p.must_request());
    assert_eq!(p.latest.graph_id, 1);
    assert!(!p.frame(None));
    assert_eq!(p.state, PollState::Awaiting);
    assert!(p.frame(Some(snapshot_with(2, &[]))));
    assert_eq!(p.latest.graph_id, 2);
}

#[test]
fn a_frame_without_a_snapshot_leaves_the_scene() {
    let mut v = Visualiser::new();
    assert!(matches!(v.update_inspection(None), Ok(None)));
    assert_eq!(v.poller.state, PollState::Awaiting);
    assert_eq!(v.scene.len(), 0);
    assert!(matches!(v.update_inspection(None), Ok(None)));
    assert_eq!(v.scene.len(), 0);
}

#[test]
fn a_snapshot_that_arrives_is_materialised() {
    let mut v = Visualiser::new();
    v.update_inspection(None).unwrap();
    let report = v.update_inspection(Some(snapshot_with(4, &[10, 11]))).unwrap().unwrap();
    assert_eq!(report.graph_output, Some(0));
    assert_eq!(report.new_nodes.len(), 2);
    assert_eq!(v.scene.len(), 3);
    assert_eq!(v.scene.find_node(11), Some(2));
    assert_eq!(v.poller.state, PollState::Delivered);
    assert_eq!(v.poller.latest.graph_id, 4);
    assert!(matches!(v.update_inspection(None), Ok(None)));
    assert_eq!(v.scene.len(), 3);
}

#[test]
fn a_faulty_snapshot_is_reported_and_not_materialised() {
    let mut v = Visualiser::new();
    v.update_inspection(None).unwrap();
    let mut s = snapshot_with(4, &[10]);
    s.graph_output_input_edges.push(Edge { source: EdgeSource::Graph, from_index: 0, to_index: 0 });
    assert_eq!(v.update_inspection(Some(s)).unwrap_err(), DiffError::GraphSource);
    assert_eq!(v.scene.len(), 0);
    assert_eq!(v.poller.latest.graph_id, 4);
}
