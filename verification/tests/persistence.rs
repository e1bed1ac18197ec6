use vibeshell::contracts::{CanvasState, Cluster, Window, ZoomLevel};
use vibeshell::persistence::{
    window_assignment_changed, MutationChanges, OverviewPersistence, PersistStep, PersistedOverviewState,
};

fn cluster(id: u64, name: &str, x: f64, y: f64, windows: Vec<u64>) -> Cluster<f64> {
    Cluster {
        id,
        name: name.to_string(),
        x,
        y,
        enabled: true,
        windows: windows.clone(),
        last_focus: windows.first().copied(),
        recency: windows,
    }
}

fn window(id: u64, cluster_id: Option<u64>, manual: bool) -> Window {
    let mut w = Window::default();
    w.id = id;
    w.title = format!("Window {id}");
    w.cluster_id = cluster_id;
    w.manual_cluster_override = manual;
    w
}

fn canvas(zoom: ZoomLevel, clusters: Vec<Cluster<f64>>, windows: Vec<Window>) -> CanvasState<f64> {
    CanvasState { state_revision: 7, zoom, clusters, windows }
}

#[test]
fn from_canvas_keeps_positions_names_and_manual_assignments() {
    let state = canvas(
        ZoomLevel::Cluster(2),
        vec![cluster(1, "web", 10.0, 20.0, vec![11]), cluster(2, "code", -5.5, 3.0, vec![12, 13])],
        vec![window(11, Some(1), false), window(12, Some(2), true), window(13, None, true)],
    );
    let saved = PersistedOverviewState::from_canvas(&state);
    assert_eq!(saved.clusters.len(), 2);
    assert_eq!((saved.clusters[0].id, saved.clusters[0].name.as_str()), (1, "web"));
    assert_eq!((saved.clusters[1].x, saved.clusters[1].y), (-5.5, 3.0));
    assert_eq!(saved.manual_window_assignments.len(), 1);
    assert_eq!(saved.manual_window_assignments.get(&12), Some(&2));
    assert_eq!(saved.active_cluster, Some(2));
    assert!(saved.cluster_history.is_empty());

    let overview = canvas(ZoomLevel::Overview, Vec::new(), Vec::new());
    assert_eq!(PersistedOverviewState::from_canvas(&overview).active_cluster, None);
}

#[test]
fn later_window_wins_for_a_repeated_id() {
    let state = canvas(
        ZoomLevel::Overview,
        Vec::new(),
        vec![window(5, Some(1), true), window(5, Some(3), true), window(6, Some(2), true), window(6, Some(4), false)],
    );
    let saved = PersistedOverviewState::from_canvas(&state);
    assert_eq!(saved.manual_window_assignments.get(&5), Some(&3));
    assert_eq!(saved.manual_window_assignments.get(&6), Some(&2));
}

#[test]
fn seed_replaces_clusters_with_empty_saved_ones() {
    let saved_from = canvas(
        ZoomLevel::Cluster(9),
        vec![cluster(9, "mail", 1.0, 2.0, vec![1, 2]), cluster(4, "chat", 3.0, 4.0, vec![])],
        vec![window(1, Some(9), false)],
    );
    let saved = PersistedOverviewState::from_canvas(&saved_from);
    let mut fresh = canvas(ZoomLevel::Overview, vec![cluster(1, "1", 0.0, 0.0, vec![3])], vec![window(3, Some(1), false)]);
    saved.apply_to_canvas_seed(&mut fresh);
    assert_eq!(fresh.clusters.len(), 2);
    assert_eq!(fresh.clusters[0].id, 9);
    assert_eq!(fresh.clusters[0].name, "mail");
    assert_eq!((fresh.clusters[0].x, fresh.clusters[0].y), (1.0, 2.0));
    assert!(fresh.clusters[0].enabled);
    assert!(fresh.clusters[0].windows.is_empty());
    assert!(fresh.clusters[0].recency.is_empty());
    assert_eq!(fresh.clusters[0].last_focus, None);
    assert_eq!(fresh.clusters[1].id, 4);
    assert_eq!(fresh.zoom, ZoomLevel::Cluster(9));
    assert_eq!(fresh.windows.len(), 1);
    assert_eq!(fresh.state_revision, 7);
}

#[test]
fn merge_restores_positions_assignments_and_zoom() {
    let saved_from = canvas(
        ZoomLevel::Cluster(2),
        vec![cluster(1, "web", 100.0, 200.0, vec![]), cluster(2, "code", 300.0, 400.0, vec![])],
        vec![window(21, Some(2), true)],
    );
    let saved = PersistedOverviewState::from_canvas(&saved_from);
    let mut live = canvas(
        ZoomLevel::Overview,
        vec![
            cluster(2, "code", 0.0, 0.0, vec![21]),
            cluster(3, "new", 5.0, 5.0, vec![]),
            cluster(2, "dup", 7.0, 7.0, vec![]),
        ],
        vec![window(21, Some(3), false), window(22, Some(3), false)],
    );
    saved.merge_into_live_canvas(&mut live);
    assert_eq!((live.clusters[0].x, live.clusters[0].y), (300.0, 400.0));
    assert_eq!(live.clusters[0].windows, vec![21]);
    assert_eq!((live.clusters[1].x, live.clusters[1].y), (5.0, 5.0));
    assert_eq!((live.clusters[2].x, live.clusters[2].y), (7.0, 7.0));
    assert_eq!(live.windows[0].cluster_id, Some(2));
    assert!(live.windows[0].manual_cluster_override);
    assert_eq!(live.windows[1].cluster_id, Some(3));
    assert!(!live.windows[1].manual_cluster_override);
    assert_eq!(live.zoom, ZoomLevel::Cluster(2));
}

#[test]
fn merge_keeps_a_zoom_that_is_not_the_overview() {
    let saved = PersistedOverviewState::from_canvas(&canvas(ZoomLevel::Cluster(2), Vec::new(), Vec::new()));
    let mut live = canvas(ZoomLevel::Focus(8), Vec::new(), Vec::new());
    saved.merge_into_live_canvas(&mut live);
    assert_eq!(live.zoom, ZoomLevel::Focus(8));
}

#[test]
fn assignment_change_is_detected_per_window() {
    let before = vec![window(1, Some(1), false), window(2, Some(2), true)];
    assert!(!window_assignment_changed(&before, &before));
    let reordered = vec![window(2, Some(2), true), window(1, Some(1), false)];
    assert!(!window_assignment_changed(&before, &reordered));
    let moved = vec![window(1, Some(3), false), window(2, Some(2), true)];
    assert!(window_assignment_changed(&before, &moved));
    let unflagged = vec![window(1, Some(1), false), window(2, Some(2), false)];
    assert!(window_assignment_changed(&before, &unflagged));
    let added = vec![window(1, Some(1), false), window(2, Some(2), true), window(3, None, false)];
    assert!(window_assignment_changed(&before, &added));
    assert!(window_assignment_changed(&added, &before));
    let mut retitled = before.clone();
    retitled[0].title = "renamed".to_string();
    assert!(!window_assignment_changed(&before, &retitled));
}

#[test]
fn debounced_save_waits_then_writes_latest_once() {
    let mut schedule: OverviewPersistence<f64> = OverviewPersistence::with_debounce(250);
    let first = canvas(ZoomLevel::Cluster(1), Vec::new(), Vec::new());
    let second = canvas(ZoomLevel::Cluster(2), Vec::new(), Vec::new());
    assert!(schedule.flush_due(0).is_none());
    schedule.persist_debounced(&first, 1_000);
    schedule.persist_debounced(&second, 1_100);
    assert!(schedule.flush_due(1_349).is_none());
    let written = schedule.flush_due(1_350).expect("due");
    assert_eq!(written.active_cluster, Some(2));
    assert!(schedule.flush_due(5_000).is_none());
    assert!(schedule.flush_pending().is_none());
}

#[test]
fn immediate_save_drops_the_pending_one() {
    let mut schedule: OverviewPersistence<f64> = OverviewPersistence::new();
    schedule.persist_debounced(&canvas(ZoomLevel::Cluster(1), Vec::new(), Vec::new()), 0);
    let now = schedule.persist_immediate(&canvas(ZoomLevel::Cluster(4), Vec::new(), Vec::new()));
    assert_eq!(now.active_cluster, Some(4));
    assert!(schedule.flush_due(10_000).is_none());
    schedule.persist_debounced(&canvas(ZoomLevel::Cluster(5), Vec::new(), Vec::new()), 0);
    assert_eq!(schedule.flush_pending().expect("pending").active_cluster, Some(5));
}

#[test]
fn merge_excluding_leaves_the_moving_cluster_in_place() {
    let saved = PersistedOverviewState::from_canvas(&canvas(
        ZoomLevel::Overview,
        vec![cluster(1, "web", 100.0, 200.0, vec![]), cluster(2, "code", 300.0, 400.0, vec![])],
        Vec::new(),
    ));
    let mut live = canvas(
        ZoomLevel::Overview,
        vec![cluster(1, "web", 1.0, 1.0, vec![]), cluster(2, "code", 2.0, 2.0, vec![])],
        Vec::new(),
    );
    saved.merge_into_live_canvas_excluding(&mut live, Some(2));
    assert_eq!((live.clusters[0].x, live.clusters[0].y), (100.0, 200.0));
    assert_eq!((live.clusters[1].x, live.clusters[1].y), (2.0, 2.0));
    assert_eq!(live.zoom, ZoomLevel::Overview);
}

#[test]
fn after_mutation_saves_at_once_or_debounces() {
    let state = canvas(ZoomLevel::Cluster(3), Vec::new(), Vec::new());
    let mut schedule: OverviewPersistence<f64> = OverviewPersistence::with_debounce(100);
    let zoomed = MutationChanges { positions: false, assignments: false, zoom: true, viewport: true };
    match schedule.after_mutation(&state, zoomed, 0) {
        PersistStep::Immediate(saved) => assert_eq!(saved.active_cluster, Some(3)),
        _ => panic!("a zoom change is saved at once"),
    }
    let panned = MutationChanges { positions: false, assignments: false, zoom: false, viewport: true };
    assert!(matches!(schedule.after_mutation(&state, panned, 1_000), PersistStep::Debounced(None)));
    match schedule.flush_due(1_100) {
        Some(saved) => assert_eq!(saved.active_cluster, Some(3)),
        None => panic!("the debounced save is due"),
    }
    let nothing = MutationChanges { positions: false, assignments: false, zoom: false, viewport: false };
    assert!(matches!(schedule.after_mutation(&state, nothing, 2_000), PersistStep::Nothing));
    assert!(schedule.flush_pending().is_none());
}
