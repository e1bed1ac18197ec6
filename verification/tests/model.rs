use vibeshell::contracts::{CanvasState, Cluster, ClusterId, Window, WindowId, WindowRole, WindowState, ZoomLevel};
use vibeshell::model::{CanvasModel, DeleteClusterMode, ModelError, MutationResult, OpenAssignPolicy};

fn plain_window(id: WindowId, title: &str, app: Option<&str>, cluster_id: ClusterId) -> Window {
    Window {
        id,
        title: title.into(),
        app_id: app.map(|a| a.to_owned()),
        class: app.map(|a| a.to_owned()),
        role: WindowRole::Normal,
        state: WindowState::Tiled,
        cluster_id: Some(cluster_id),
        transient_for: None,
        manual_cluster_override: false,
        manual_position_override: false,
    }
}

fn fixture_window(id: WindowId, cluster_id: ClusterId) -> Window {
    plain_window(id, &format!("Window {id}"), Some("fixture"), cluster_id)
}

fn model_fixture_with_cluster_windows(window_ids: &[WindowId]) -> CanvasModel<f64> {
    let cluster_id = 1;
    let state = CanvasState {
        state_revision: 0,
        zoom: ZoomLevel::Cluster(cluster_id),
        clusters: vec![Cluster {
            id: cluster_id,
            name: "fixture".into(),
            x: 0.0,
            y: 0.0,
            enabled: true,
            windows: window_ids.to_vec(),
            last_focus: window_ids.first().copied(),
            recency: window_ids.to_vec(),
        }],
        windows: window_ids.iter().map(|window_id| fixture_window(*window_id, cluster_id)).collect(),
    };
    CanvasModel::new(state, cluster_id).expect("fixture model should be valid")
}

fn base_state() -> CanvasState<f64> {
    CanvasState {
        state_revision: 0,
        zoom: ZoomLevel::Cluster(1),
        clusters: vec![
            Cluster {
                id: 1,
                name: "one".into(),
                x: 0.0,
                y: 0.0,
                enabled: true,
                windows: vec![10],
                last_focus: Some(10),
                recency: vec![10],
            },
            Cluster {
                id: 2,
                name: "two".into(),
                x: 1.0,
                y: 1.0,
                enabled: true,
                windows: vec![],
                last_focus: None,
                recency: vec![],
            },
        ],
        windows: vec![plain_window(10, "Terminal", Some("foot"), 1)],
    }
}

#[test]
fn duplicate_create_is_rejected() {
    let mut model = CanvasModel::new(base_state(), 1).expect("valid model");
    let err = model.create_cluster(1, "dupe".to_owned(), 0.0, 0.0).expect_err("duplicate id should fail");
    assert_eq!(err, ModelError::ClusterAlreadyExists(1));
}

#[test]
fn rename_conflict_is_rejected() {
    let mut model = CanvasModel::new(base_state(), 1).expect("valid model");
    let err = model.rename_cluster(1, "two".to_owned()).expect_err("name conflict should fail");
    assert_eq!(err, ModelError::ClusterNameConflict("two".into()));
}

#[test]
fn delete_active_cluster_reassigns_and_switches_active() {
    let mut model = CanvasModel::new(base_state(), 1).expect("valid model");
    let result = model
        .delete_cluster(1, DeleteClusterMode::ReassignTo { fallback_cluster: 2 })
        .expect("delete should succeed");
    assert_eq!(result, MutationResult::DeletedCluster { cluster: 1, reassigned_windows: 1 });
    assert_eq!(model.active_cluster(), 2);
    let moved = model.state().windows.iter().find(|window| window.id == 10).expect("window exists");
    assert_eq!(moved.cluster_id, Some(2));
}

#[test]
fn close_during_reassignment_cleans_stale_refs() {
    let mut model = CanvasModel::new(base_state(), 1).expect("valid model");
    model.assign_window_to_cluster_manual(10, 2).expect("reassignment should succeed");
    let closed = model.on_window_close(10).expect("close should succeed");
    assert_eq!(closed, MutationResult::WindowClosed { window: 10, cluster: 2 });
    let destination = model.state().clusters.iter().find(|cluster| cluster.id == 2).expect("cluster 2 exists");
    assert!(destination.windows.is_empty());
    assert!(destination.recency.is_empty());
}

#[test]
fn focus_changes_update_recency_without_reordering_unfocused_windows() {
    let mut state = base_state();
    state.clusters[0].windows = vec![10, 11, 12];
    state.clusters[0].recency = vec![10, 11, 12];
    state.clusters[0].last_focus = Some(10);
    state.windows.extend([
        plain_window(11, "Editor", Some("code"), 1),
        plain_window(12, "Browser", Some("firefox"), 1),
    ]);
    let mut model = CanvasModel::new(state, 1).expect("valid model");

    let first = model.on_focus_change(12).expect("focus update should succeed");
    assert_eq!(first, MutationResult::FocusUpdated { window: 12, cluster: 1 });
    let cluster = model.state().clusters.iter().find(|cluster| cluster.id == 1).expect("cluster exists");
    assert_eq!(cluster.last_focus, Some(12));
    assert_eq!(cluster.recency, vec![12, 10, 11]);

    let second = model.on_focus_change(11).expect("focus update should succeed");
    assert_eq!(second, MutationResult::FocusUpdated { window: 11, cluster: 1 });
    let cluster = model.state().clusters.iter().find(|cluster| cluster.id == 1).expect("cluster exists");
    assert_eq!(cluster.last_focus, Some(11));
    assert_eq!(cluster.recency, vec![11, 12, 10]);
}

#[test]
fn metadata_defaults_seed_deterministic_recency_for_existing_windows() {
    let state = CanvasState {
        state_revision: 0,
        zoom: ZoomLevel::Cluster(1),
        clusters: vec![Cluster {
            id: 1,
            name: "one".into(),
            x: 0.0,
            y: 0.0,
            enabled: true,
            windows: vec![20, 10, 30],
            last_focus: None,
            recency: vec![],
        }],
        windows: vec![
            plain_window(10, "A", None, 1),
            plain_window(20, "B", None, 1),
            plain_window(30, "C", None, 1),
        ],
    };
    let model = CanvasModel::new(state, 1).expect("valid model");
    let cluster = model.state().clusters.first().expect("cluster exists");
    assert_eq!(cluster.recency, vec![30, 10, 20]);
    assert_eq!(cluster.last_focus, Some(30));
}

#[test]
fn manual_assignment_is_idempotent() {
    let mut model = CanvasModel::new(base_state(), 1).expect("valid model");
    let unchanged = model.assign_window_to_cluster_manual(10, 1).expect("idempotent assignment should succeed");
    assert_eq!(
        unchanged,
        MutationResult::WindowAssignmentUnchanged { window: 10, cluster: 1, manual_override: true }
    );
}

#[test]
fn transition_cycles_preserve_deterministic_focus_order_for_1_2_and_3plus_windows() {
    let fixtures = [vec![1001], vec![2001, 2002], vec![3001, 3002, 3003, 3004]];
    for window_ids in fixtures {
        let mut model = model_fixture_with_cluster_windows(&window_ids);
        for cycle in 0..20 {
            for (offset, window_id) in window_ids.iter().enumerate() {
                let result = model.on_focus_change(*window_id).expect("focus update should succeed");
                if cycle == 0 && offset == 0 {
                    assert_eq!(result, MutationResult::FocusNoop(*window_id));
                }
            }
        }
        let cluster = model.state().clusters.first().expect("cluster exists");
        let mut expected = window_ids.clone();
        expected.reverse();
        assert_eq!(cluster.recency, expected);
        assert_eq!(cluster.last_focus, window_ids.last().copied());
        assert_eq!(cluster.windows, window_ids);
    }
}

#[test]
fn new_rejects_unknown_active_cluster() {
    let err = CanvasModel::new(base_state(), 9).err().expect("unknown active cluster");
    assert!(matches!(err, ModelError::InvariantViolation(_)));
}

#[test]
fn open_window_goes_to_active_cluster_and_close_twice_is_noop() {
    let mut model = CanvasModel::new(base_state(), 1).expect("valid model");
    let opened = model
        .on_window_open(plain_window(40, "New", Some("app"), 2), OpenAssignPolicy::ActiveCluster)
        .expect("open should succeed");
    assert_eq!(opened, MutationResult::WindowOpened { window: 40, cluster: 1 });
    let again = model.on_window_open(plain_window(40, "New", Some("app"), 2), OpenAssignPolicy::ActiveCluster);
    assert_eq!(again.err(), Some(ModelError::WindowAlreadyTracked(40)));
    assert_eq!(model.on_window_close(40).expect("close"), MutationResult::WindowClosed { window: 40, cluster: 1 });
    assert_eq!(model.on_window_close(40).expect("close again"), MutationResult::WindowCloseNoop(40));
    assert!(model.check_invariants().is_ok());
}

#[test]
fn delete_non_empty_cluster_is_blocked_and_move_reports_old_position() {
    let mut model = CanvasModel::new(base_state(), 1).expect("valid model");
    let err = model.delete_cluster(1, DeleteClusterMode::BlockIfNonEmpty).expect_err("non-empty");
    assert_eq!(err, ModelError::ClusterNotEmpty { cluster: 1, window_count: 1 });
    let moved = model.move_cluster(2, 5.0, 6.0).expect("move");
    assert_eq!(moved, MutationResult::MovedCluster { cluster: 2, old_x: 1.0, old_y: 1.0, new_x: 5.0, new_y: 6.0 });
    let created = model.create_cluster(3, "three".to_owned(), 2.0, 2.0).expect("create");
    assert_eq!(created, MutationResult::CreatedCluster(3));
}
