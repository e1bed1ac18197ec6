use vibeshell::contracts::{CanvasState, Cluster, Window, ZoomLevel};
use vibeshell::dump::state_dump;

fn cluster(id: u64, name: &str, windows: Vec<u64>, recency: Vec<u64>) -> Cluster<i32> {
    Cluster { id, name: name.to_string(), x: id as i32, y: -(id as i32), enabled: true, windows, last_focus: None, recency }
}

fn window(id: u64) -> Window {
    let mut w = Window::default();
    w.id = id;
    w.title = format!("w{id}");
    w
}

#[test]
fn dump_orders_clusters_and_windows_by_id() {
    let state = CanvasState {
        state_revision: 3,
        zoom: ZoomLevel::Cluster(2),
        clusters: vec![
            cluster(5, "five", vec![51, 52, 53], vec![53]),
            cluster(2, "two", vec![21, 22], vec![]),
            cluster(5, "five again", vec![], vec![]),
        ],
        windows: vec![window(30), window(10), window(20), window(10)],
    };
    let dump = state_dump(&state, Some(2));
    assert_eq!(dump.active_zoom, ZoomLevel::Cluster(2));
    assert_eq!(dump.active_cluster, Some(2));
    let ids: Vec<u64> = dump.clusters.iter().map(|c| c.id).collect();
    assert_eq!(ids, vec![2, 5, 5]);
    assert_eq!(dump.clusters[1].name, "five");
    assert_eq!(dump.clusters[2].name, "five again");
    assert_eq!((dump.clusters[0].x, dump.clusters[0].y), (2, -2));
    let window_ids: Vec<u64> = dump.windows.iter().map(|w| w.id).collect();
    assert_eq!(window_ids, vec![10, 10, 20, 30]);
}

#[test]
fn dumped_windows_start_with_recency_then_the_rest() {
    let state = CanvasState {
        state_revision: 0,
        zoom: ZoomLevel::Overview,
        clusters: vec![cluster(1, "one", vec![11, 12, 13, 12], vec![13, 11])],
        windows: Vec::new(),
    };
    let dump = state_dump(&state, None);
    assert_eq!(dump.clusters[0].window_ids, vec![13, 11, 12]);
    assert_eq!(dump.active_cluster, None);
}
