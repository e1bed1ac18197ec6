use vibeshell::vibewm::{animation_start, VibewmModel, WorkspaceEffects, WorkspaceRequest};
use vibeshell::wm::{VibewmEvent, WmSignal};

#[test]
fn boot_has_default_cluster_named_one() {
    let model = VibewmModel::new();
    assert_eq!(model.clusters.len(), 1);
    assert_eq!(model.clusters[0].name, "1");
    assert_eq!(model.active_cluster, model.clusters[0].id);
    assert!(model.previous_cluster.is_none());
}

#[test]
fn create_then_activate_records_previous() {
    let mut model = VibewmModel::new();
    let default_id = model.active_cluster;
    let new_id = model.create_cluster("play".into());
    assert!(model.activate_cluster(new_id));
    assert_eq!(model.active_cluster, new_id);
    assert_eq!(model.previous_cluster, Some(default_id));
}

#[test]
fn back_and_forth_swaps_active_and_previous() {
    let mut model = VibewmModel::new();
    let a = model.active_cluster;
    let b = model.create_cluster("b".into());
    model.activate_cluster(b);
    assert!(model.back_and_forth());
    assert_eq!(model.active_cluster, a);
    assert_eq!(model.previous_cluster, Some(b));
}

#[test]
fn back_and_forth_noop_without_previous() {
    let mut model = VibewmModel::new();
    let a = model.active_cluster;
    assert!(!model.back_and_forth());
    assert_eq!(model.active_cluster, a);
}

#[test]
fn activate_unknown_cluster_fails() {
    let mut model = VibewmModel::new();
    assert!(!model.activate_cluster(9999));
}

#[test]
fn find_cluster_by_name() {
    let mut model = VibewmModel::new();
    model.create_cluster("project".into());
    assert!(model.find_cluster_by_name("project").is_some());
    assert!(model.find_cluster_by_name("missing").is_none());
}

#[test]
fn back_and_forth_twice_returns_to_start() {
    let mut model = VibewmModel::new();
    let a = model.active_cluster;
    let b = model.create_cluster("b".into());
    model.activate_cluster(b);
    assert!(model.back_and_forth());
    assert!(model.back_and_forth());
    assert_eq!(model.active_cluster, b);
    assert_eq!(model.previous_cluster, Some(a));
}

#[test]
fn registered_windows_get_fresh_ids_and_can_be_pruned() {
    let mut model = VibewmModel::new();
    let w1 = model.register_window();
    let w2 = model.register_window();
    assert_ne!(w1, w2);
    assert!(model.windows.contains(&w1) && model.windows.contains(&w2));
    model.prune_dead(&[w1]);
    assert!(!model.windows.contains(&w1));
    assert!(model.windows.contains(&w2));
    model.unregister_window(w2);
    assert!(model.windows.is_empty());
}

#[test]
fn workspace_or_window_event_translates_to_signal() {
    assert_eq!(VibewmEvent::WorkspaceOrWindow.to_signal(), Some(WmSignal::WorkspaceOrWindow));
}

#[test]
fn cluster_mapped_event_translates_to_signal() {
    let signal = VibewmEvent::ClusterMapped { cluster: 42, window_count: 2 }.to_signal();
    assert_eq!(signal, Some(WmSignal::ClusterMapped { cluster: 42, window_count: 2 }));
}

fn switched(id: u64) -> WorkspaceEffects {
    WorkspaceEffects { sync_visibility: true, broadcast_workspace: true, cluster_mapped: Some(id), reply: Ok(()) }
}

#[test]
fn activate_request_switches_and_announces_mapping() {
    let mut model = VibewmModel::new();
    let play = model.create_cluster("play".into());
    let effects = model.dispatch_workspace_request(WorkspaceRequest::ActivateCluster { cluster: play });
    assert_eq!(effects, switched(play));
    assert_eq!(model.active_cluster, play);
    assert_eq!(model.previous_cluster, Some(1));
}

#[test]
fn activate_request_for_unknown_cluster_reports_it() {
    let mut model = VibewmModel::new();
    let effects = model.dispatch_workspace_request(WorkspaceRequest::ActivateCluster { cluster: 42 });
    assert_eq!(
        effects,
        WorkspaceEffects { sync_visibility: false, broadcast_workspace: false, cluster_mapped: None, reply: Err(42) }
    );
    assert_eq!(model.active_cluster, 1);
    assert!(model.previous_cluster.is_none());
}

#[test]
fn named_workspace_request_creates_once_then_reuses() {
    let mut model = VibewmModel::new();
    let first = model.dispatch_workspace_request(WorkspaceRequest::CreateNamedWorkspace { name: "play".into() });
    assert_eq!(first, switched(2));
    assert_eq!(model.clusters.len(), 2);
    assert_eq!(model.clusters[1].name, "play");
    assert_eq!(model.active_cluster, 2);
    let second = model.dispatch_workspace_request(WorkspaceRequest::CreateNamedWorkspace { name: "play".into() });
    assert_eq!(second, switched(2));
    assert_eq!(model.clusters.len(), 2);
    assert_eq!(model.active_cluster, 2);
    assert_eq!(model.previous_cluster, Some(1));
    let back = model.dispatch_workspace_request(WorkspaceRequest::CreateNamedWorkspace { name: "1".into() });
    assert_eq!(back, switched(1));
    assert_eq!(model.clusters.len(), 2);
    assert_eq!(model.active_cluster, 1);
}

#[test]
fn back_and_forth_request_is_quiet_without_previous() {
    let mut model = VibewmModel::new();
    let effects = model.dispatch_workspace_request(WorkspaceRequest::BackAndForthWorkspace);
    assert_eq!(
        effects,
        WorkspaceEffects { sync_visibility: false, broadcast_workspace: false, cluster_mapped: None, reply: Ok(()) }
    );
    let play = model.create_cluster("play".into());
    model.activate_cluster(play);
    let effects = model.dispatch_workspace_request(WorkspaceRequest::BackAndForthWorkspace);
    assert_eq!(effects, switched(1));
    assert_eq!(model.active_cluster, 1);
    assert_eq!(model.previous_cluster, Some(play));
}

#[test]
fn cluster_facts_report_registry_workspaces() {
    let mut model = VibewmModel::new();
    let a = model.register_window();
    let b = model.register_window();
    let play = model.create_cluster("play".into());
    let facts = model.cluster_facts(0i64);
    assert_eq!(facts.len(), 2);
    assert_eq!(facts[0].id, 1);
    assert_eq!(facts[0].name, "1");
    assert!(facts[0].enabled);
    assert_eq!(facts[0].windows, vec![a, b]);
    assert_eq!(facts[0].recency, vec![a, b]);
    assert_eq!(facts[0].last_focus, Some(b));
    assert_eq!((facts[0].x, facts[0].y), (0, 0));
    assert_eq!(facts[1].id, play);
    assert!(!facts[1].enabled);
    assert!(facts[1].windows.is_empty());
    assert_eq!(facts[1].last_focus, None);
    assert_eq!(model.cluster_of_window(b), Some(1));
    assert_eq!(model.cluster_of_window(99), None);
}

#[test]
fn animation_starts_from_the_running_position() {
    assert_eq!(animation_start((10, 10), (10, 10), Some((3, 4))), None);
    assert_eq!(animation_start((0, 0), (100, 50), None), Some((0, 0)));
    assert_eq!(animation_start((0, 0), (100, 50), Some((40, 20))), Some((40, 20)));
}
