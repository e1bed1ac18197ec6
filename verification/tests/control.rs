use vibeshell::contracts::{CanvasState, Cluster, Window, WindowId, WindowRole, WindowState, ZoomLevel};
use vibeshell::control::{deterministic_focus_plan, FocusPlan};
use vibeshell::daemon::{exclusion_reason, LayoutExclusionReason};

fn fixture_canvas_state(window_ids: &[WindowId]) -> CanvasState<f64> {
    let cluster_id = 7;
    CanvasState {
        state_revision: 1,
        zoom: ZoomLevel::Overview,
        clusters: vec![Cluster {
            id: cluster_id,
            name: "fixture".into(),
            x: 10.0,
            y: 20.0,
            enabled: true,
            windows: window_ids.to_vec(),
            last_focus: window_ids.last().copied(),
            recency: window_ids.iter().rev().copied().collect(),
        }],
        windows: window_ids
            .iter()
            .map(|window_id| Window {
                id: *window_id,
                title: format!("Window {window_id}"),
                app_id: Some("fixture".into()),
                class: Some("fixture".into()),
                role: WindowRole::Normal,
                state: WindowState::Tiled,
                cluster_id: Some(cluster_id),
                transient_for: None,
                manual_cluster_override: false,
                manual_position_override: false,
            })
            .collect(),
    }
}

#[test]
fn deterministic_focus_plan_prefers_stable_last_focus_across_20_cycles() {
    let fixtures = [vec![101], vec![201, 202], vec![301, 302, 303, 304]];
    for window_ids in fixtures {
        let state = fixture_canvas_state(&window_ids);
        let expected_focus = *window_ids.last().expect("fixture has windows");
        for _ in 0..20 {
            let plan = deterministic_focus_plan(&state, Some(7), None, ZoomLevel::Cluster(7), None);
            assert!(matches!(plan, FocusPlan::FocusWindow(window_id) if window_id == expected_focus));
            let focus_plan = deterministic_focus_plan(&state, Some(7), None, ZoomLevel::Focus(expected_focus), None);
            assert!(matches!(focus_plan, FocusPlan::FocusWindow(window_id) if window_id == expected_focus));
        }
    }
}

#[test]
fn deterministic_focus_plan_restores_pre_overview_focus_when_valid_over_20_cycles() {
    let fixtures = [vec![401], vec![501, 502], vec![601, 602, 603, 604]];
    for window_ids in fixtures {
        let state = fixture_canvas_state(&window_ids);
        let pre_overview_focus = window_ids[0];
        for _ in 0..20 {
            let plan =
                deterministic_focus_plan(&state, Some(7), None, ZoomLevel::Cluster(7), Some(pre_overview_focus));
            assert!(matches!(plan, FocusPlan::FocusWindow(window_id) if window_id == pre_overview_focus));
        }
    }
}

#[test]
fn deterministic_focus_plan_without_target_keeps_focus() {
    let state = fixture_canvas_state(&[11, 12]);
    let plan = deterministic_focus_plan(&state, None, None, ZoomLevel::Overview, None);
    assert!(matches!(plan, FocusPlan::Keep));
    let unknown = deterministic_focus_plan(&state, Some(99), None, ZoomLevel::Overview, None);
    assert!(matches!(unknown, FocusPlan::Keep));
    let requested = deterministic_focus_plan(&state, Some(7), Some(11), ZoomLevel::Cluster(7), None);
    assert!(matches!(requested, FocusPlan::FocusWindow(11)));
}

fn scratchpad_window() -> Window {
    Window {
        id: 42,
        role: WindowRole::Scratchpad,
        state: WindowState::MinimizedLike,
        manual_position_override: true,
        ..Default::default()
    }
}

#[test]
fn scratchpad_takes_priority_over_other_exclusions() {
    let mut w = scratchpad_window();
    assert_eq!(exclusion_reason(&w), Some(LayoutExclusionReason::Scratchpad));
    w.state = WindowState::Fullscreen;
    w.transient_for = Some(7);
    assert_eq!(exclusion_reason(&w), Some(LayoutExclusionReason::Scratchpad));
}

#[test]
fn non_scratchpad_paths_unchanged() {
    let fullscreen = Window { id: 1, state: WindowState::Fullscreen, ..Default::default() };
    assert_eq!(exclusion_reason(&fullscreen), Some(LayoutExclusionReason::FullscreenTemporaryOverride));
    let dialog = Window { id: 2, role: WindowRole::Dialog, ..Default::default() };
    assert_eq!(exclusion_reason(&dialog), Some(LayoutExclusionReason::TransientDialogAttached));
    let normal = Window { id: 3, ..Default::default() };
    assert_eq!(exclusion_reason(&normal), None);
}

#[test]
fn utility_and_manual_resize_are_excluded() {
    let utility = Window { id: 4, role: WindowRole::Utility, ..Default::default() };
    assert_eq!(exclusion_reason(&utility), Some(LayoutExclusionReason::OverlayOrPopup));
    let resized = Window { id: 5, manual_position_override: true, ..Default::default() };
    assert_eq!(exclusion_reason(&resized), Some(LayoutExclusionReason::ManualResize));
}
