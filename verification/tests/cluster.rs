use atomicwm::window::cluster::{ClusterGraph, ClusterId};
use atomicwm::window::node::WindowId;

fn ids(values: &[u64]) -> Vec<WindowId> {
    values.iter().map(|value| WindowId::new(*value)).collect()
}

fn edge(a: u64, b: u64) -> (WindowId, WindowId) {
    (WindowId::new(a), WindowId::new(b))
}

#[test]
fn single_window_forms_one_cluster() {
    let graph = ClusterGraph::from_connections(vec![]);
    let clusters = graph.components(&ids(&[1]));

    assert_eq!(clusters, vec![ids(&[1])]);
}

#[test]
fn unconnected_windows_form_separate_clusters_in_window_order() {
    let graph = ClusterGraph::from_connections(vec![]);

    assert_eq!(graph.components(&ids(&[3, 1, 2])), vec![ids(&[3]), ids(&[1]), ids(&[2])]);
}

#[test]
fn chain_of_connections_forms_one_cluster() {
    let graph = ClusterGraph::from_connections(vec![edge(1, 2), edge(2, 3)]);

    assert_eq!(graph.components(&ids(&[1, 2, 3])), vec![ids(&[1, 2, 3])]);
}

#[test]
fn edges_count_in_both_directions() {
    let graph = ClusterGraph::from_connections(vec![edge(3, 1)]);

    assert!(graph.connected(WindowId::new(1), WindowId::new(3)));
    assert!(graph.connected(WindowId::new(3), WindowId::new(1)));
    assert!(!graph.connected(WindowId::new(1), WindowId::new(2)));
    assert_eq!(graph.components(&ids(&[1, 2, 3])), vec![ids(&[1, 3]), ids(&[2])]);
}

#[test]
fn walk_is_depth_first_in_window_order() {
    // 1 - 3, 1 - 4, 3 - 2: from 1 the walk reaches 3, then 2, then 4.
    let graph = ClusterGraph::from_connections(vec![edge(1, 3), edge(1, 4), edge(3, 2)]);

    assert_eq!(graph.components(&ids(&[1, 2, 3, 4, 5])), vec![ids(&[1, 3, 2, 4]), ids(&[5])]);
}

#[test]
fn two_groups_form_two_clusters() {
    let graph = ClusterGraph::from_connections(vec![edge(1, 2), edge(3, 4)]);
    let clusters = graph.components(&ids(&[1, 3, 2, 4]));

    assert_eq!(clusters, vec![ids(&[1, 2]), ids(&[3, 4])]);
}

#[test]
fn cluster_ids_count_from_one() {
    assert_eq!(ClusterId::new(1), ClusterId(1));
    assert_eq!(ClusterId::new(1).0, 1);
}

#[test]
fn clusters_are_numbered_from_one_in_window_order() {
    let graph = ClusterGraph::from_connections(vec![edge(2, 4)]);

    assert_eq!(
        graph.clusters(&ids(&[1, 2, 3, 4])),
        vec![
            (ClusterId(1), ids(&[1])),
            (ClusterId(2), ids(&[2, 4])),
            (ClusterId(3), ids(&[3])),
        ]
    );
}

#[test]
fn cluster_for_window_finds_the_cluster_holding_it() {
    let graph = ClusterGraph::from_connections(vec![edge(1, 3), edge(1, 4), edge(3, 2)]);
    let windows = ids(&[5, 1, 2, 3, 4]);

    assert_eq!(
        graph.cluster_for_window(WindowId::new(2), &windows),
        Some((ClusterId(2), ids(&[1, 3, 2, 4])))
    );
    assert_eq!(graph.cluster_for_window(WindowId::new(5), &windows), Some((ClusterId(1), ids(&[5]))));
    assert_eq!(graph.cluster_for_window(WindowId::new(9), &windows), None);
}

#[test]
fn no_windows_no_clusters() {
    let graph = ClusterGraph::from_connections(vec![edge(1, 2)]);

    assert_eq!(graph.clusters(&[]), vec![]);
    assert_eq!(graph.cluster_for_window(WindowId::new(1), &[]), None);
}
