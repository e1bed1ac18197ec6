use std::collections::HashMap;

use vibeshell::contracts::{
    CanvasState, Cluster, ContextStripDirection, CycleDirection, TransitionPhase, Window, WindowRole, WindowState,
    ZoomLevel, ZoomTransition,
};
use vibeshell::daemon::{ConflictOutcome, StateError, StateOwner, WmFacts};

fn cluster(id: u64, name: &str, x: f64, windows: Vec<u64>) -> Cluster<f64> {
    Cluster {
        id,
        name: name.into(),
        x,
        y: 0.0,
        enabled: true,
        last_focus: windows.first().copied(),
        recency: windows.clone(),
        windows,
    }
}

fn window(id: u64, cluster_id: u64) -> Window {
    Window {
        id,
        title: format!("w{id}"),
        app_id: Some("app".into()),
        role: WindowRole::Normal,
        state: WindowState::Tiled,
        cluster_id: Some(cluster_id),
        ..Default::default()
    }
}

fn canvas() -> CanvasState<f64> {
    CanvasState {
        state_revision: 0,
        zoom: ZoomLevel::Overview,
        clusters: vec![cluster(1, "one", 0.0, vec![10, 11]), cluster(2, "two", 500.0, vec![20])],
        windows: vec![window(10, 1), window(11, 1), window(20, 2)],
    }
}

fn owner() -> StateOwner<f64> {
    StateOwner::new(canvas(), vec![1, 2], vec![], false)
}

#[test]
fn cancelled_drag_puts_cluster_back() {
    let mut o = owner();
    o.begin_cluster_drag(2);
    o.update_cluster_drag(900.0, 40.0);
    assert_eq!(o.state().clusters[1].x, 900.0);
    o.cancel_cluster_drag();
    assert_eq!(o.state().clusters[1].x, 500.0);
    assert_eq!(o.state().clusters[1].y, 0.0);
    assert_eq!(o.state().clusters[0].x, 0.0);
}

#[test]
fn committed_drag_keeps_new_position() {
    let mut o = owner();
    o.begin_cluster_drag(1);
    o.update_cluster_drag(-30.0, 12.0);
    o.commit_cluster_drag();
    assert_eq!((o.state().clusters[0].x, o.state().clusters[0].y), (-30.0, 12.0));
    o.cancel_cluster_drag();
    assert_eq!((o.state().clusters[0].x, o.state().clusters[0].y), (-30.0, 12.0));
}

#[test]
fn keyboard_move_cancel_restores_and_commit_keeps() {
    let mut o = owner();
    o.enter_keyboard_move_mode(1);
    o.keyboard_move_to(32.0, 0.0);
    o.cancel_keyboard_move();
    assert_eq!(o.state().clusters[0].x, 0.0);
    o.enter_keyboard_move_mode(1);
    o.keyboard_move_to(64.0, 8.0);
    o.commit_keyboard_move();
    assert_eq!((o.state().clusters[0].x, o.state().clusters[0].y), (64.0, 8.0));
}

#[test]
fn activating_a_cluster_zooms_into_it() {
    let mut o = owner();
    assert!(o.activate_cluster(2).is_ok());
    assert_eq!(o.state().zoom, ZoomLevel::Cluster(2));
    assert_eq!(o.selected_cluster_id(), Some(2));
    assert!(o.activate_cluster(99).is_err());
}

#[test]
fn zoom_in_then_out_returns_to_overview() {
    let mut o = owner();
    assert!(o.zoom_in_mode().is_ok());
    assert!(matches!(o.state().zoom, ZoomLevel::Cluster(_)));
    assert!(o.zoom_out_mode().is_ok());
    assert_eq!(o.state().zoom, ZoomLevel::Overview);
}

#[test]
fn cycling_forward_then_back_returns_to_the_cluster() {
    let mut o = owner();
    o.activate_cluster(1).expect("cluster 1 exists");
    let fwd = o.cycle_cluster(CycleDirection::Forward).expect("cycles");
    assert_ne!(fwd, 1);
    let back = o.cycle_cluster(CycleDirection::Backward).expect("cycles");
    assert_eq!(back, 1);
    assert_eq!(o.state().zoom, ZoomLevel::Cluster(1));
}

#[test]
fn context_strip_cycles_within_the_cluster() {
    let mut o = owner();
    o.activate_cluster(1).expect("cluster 1 exists");
    assert!(o.cycle_context_strip(ContextStripDirection::Next).is_err());
    o.set_focus_zoom_target(10).expect("window 10 exists");
    let next = o.cycle_context_strip(ContextStripDirection::Next).expect("two windows");
    assert!(next == 10 || next == 11);
}

#[test]
fn renaming_needs_an_existing_cluster() {
    let mut o = owner();
    assert!(o.rename_cluster(9, "nine").is_err());
    assert!(o.rename_cluster(1, "uno").is_ok());
    assert_eq!(o.state().clusters[0].name, "uno");
}

#[test]
fn moved_window_keeps_its_cluster_across_ingest() {
    let mut o = owner();
    o.move_window_to_cluster(10, 2).expect("move");
    let moved = o.state().windows.iter().find(|w| w.id == 10).expect("window");
    assert_eq!(moved.cluster_id, Some(2));
    assert!(moved.manual_cluster_override);

    let facts = WmFacts {
        clusters: vec![cluster(1, "one", 7.0, vec![10, 11]), cluster(2, "two", 8.0, vec![20])],
        windows: vec![window(10, 1), window(11, 1), window(20, 2)],
        window_geometry: HashMap::new(),
    };
    let token = o.ingest_snapshot(facts);
    let _outcome: ConflictOutcome = o.finish_ingest(token, true);
    assert_eq!(o.state().clusters[1].x, 500.0);
    assert!(o.selected_cluster_id().is_some());
}

#[test]
fn zoom_change_stamps_a_started_transition() {
    let mut o = owner();
    assert_eq!(o.transition(), None);
    o.stamp_zoom_transition(ZoomLevel::Overview, 1_000);
    assert_eq!(o.transition(), None);
    o.activate_cluster(2).unwrap();
    o.stamp_zoom_transition(ZoomLevel::Overview, 1_000);
    assert_eq!(
        o.transition(),
        Some(ZoomTransition {
            from: ZoomLevel::Overview,
            to: ZoomLevel::Cluster(2),
            phase: TransitionPhase::Started,
            started_at_ms: 1_000,
        })
    );
    o.stamp_zoom_transition(ZoomLevel::Cluster(2), 2_000);
    assert_eq!(o.transition().unwrap().started_at_ms, 1_000);
}

#[test]
fn mapped_destination_settles_the_transition() {
    let mut o = owner();
    o.activate_cluster(2).unwrap();
    o.stamp_zoom_transition(ZoomLevel::Overview, 10);
    o.advance_transition_on_cluster_mapped(1);
    assert_eq!(o.transition().unwrap().phase, TransitionPhase::Started);
    o.advance_transition_on_cluster_mapped(2);
    assert_eq!(o.transition().unwrap().phase, TransitionPhase::CompositorSettled);
    o.advance_transition_on_cluster_mapped(2);
    assert_eq!(o.transition().unwrap().phase, TransitionPhase::CompositorSettled);
}

#[test]
fn focus_transition_settles_on_the_window_cluster() {
    let mut o = owner();
    o.set_focus_zoom_target(20).unwrap();
    let before = o.state().zoom;
    assert_eq!(before, ZoomLevel::Focus(20));
    o.stamp_zoom_transition(ZoomLevel::Overview, 5);
    o.advance_transition_on_cluster_mapped(1);
    assert_eq!(o.transition().unwrap().phase, TransitionPhase::Started);
    o.advance_transition_on_cluster_mapped(2);
    assert_eq!(o.transition().unwrap().phase, TransitionPhase::CompositorSettled);
}

#[test]
fn stale_transition_is_dropped_after_max_age() {
    let mut o = owner();
    o.activate_cluster(1).unwrap();
    o.stamp_zoom_transition(ZoomLevel::Overview, 1_000);
    o.clear_stale_transition(1_499, 500);
    assert!(o.transition().is_some());
    o.clear_stale_transition(900, 500);
    assert!(o.transition().is_some());
    o.clear_stale_transition(1_500, 500);
    assert!(o.transition().is_none());
    o.stamp_zoom_transition(ZoomLevel::Overview, 2_000);
    o.clear_transition();
    assert!(o.transition().is_none());
}

#[test]
fn refusals_are_answered_with_the_daemon_json_texts() {
    let mut o = owner();
    let err = o.activate_cluster(99).unwrap_err();
    assert_eq!(err.message(""), r#"{"cluster":99,"error":"invalid_state","reason":"cluster_not_found"}"#);
    assert_eq!(
        StateError::InvalidFocusTarget(7).message(""),
        r#"{"error":"invalid_focus_target","window":7}"#
    );
    assert_eq!(
        StateError::AlreadyInOverviewZoom.message(""),
        r#"{"error":"unsupported_state_combination","reason":"already_in_overview_zoom"}"#
    );
    assert_eq!(StateError::HistoryTooShort.message(""), r#"{"error":"no_cycle_target","reason":"history_too_short"}"#);
    assert_eq!(StateError::TargetClusterNotFound(3).message(""), r#"{"cluster":3,"error":"cluster_not_found"}"#);
    assert_eq!(StateError::WindowNotFound(12).message(""), r#"{"error":"window_not_found","window":12}"#);
    assert_eq!(
        StateError::NamedClusterNotFound.message("say \"hi\"\\\n\u{1}"),
        r#"{"error":"cluster_not_found_after_create","name":"say \"hi\"\\\n\u0001"}"#
    );
    let name = "a\"b\t\u{1f}\u{8}\u{c}\r\u{7f}é";
    let quoted = serde_json::to_string(name).unwrap();
    let expected = format!("{{\"error\":\"cluster_not_found_after_create\",\"name\":{quoted}}}");
    assert_eq!(StateError::NamedClusterNotFound.message(name), expected);
}

#[test]
fn cancel_after_many_updates_restores_the_cluster() {
    let mut o = owner();
    o.begin_cluster_drag(2);
    for step in 0..25 {
        o.update_cluster_drag(10.0 * step as f64, -3.0 * step as f64);
    }
    o.cancel_cluster_drag();
    assert_eq!((o.state().clusters[1].x, o.state().clusters[1].y), (500.0, 0.0));
    o.update_cluster_drag(1.0, 1.0);
    assert_eq!((o.state().clusters[1].x, o.state().clusters[1].y), (500.0, 0.0));
}
