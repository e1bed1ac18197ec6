use std::collections::{HashMap, HashSet};

use vibeshell::layout::{
    canonical_cluster_window_order, diff_targets, BackendEvent, ClusterLayoutInput, DiffThresholds, FramePipeline,
    LayoutEngine, LayoutOp, Rect, WorkspaceMetadata, WorkspaceTransitionController,
};

fn rect(x: i32, y: i32, width: i32, height: i32) -> Rect {
    Rect { x, y, width, height }
}

#[test]
fn frame_pipeline_debounces_and_batches_once() {
    let mut pipeline = FramePipeline::new(24, DiffThresholds { position_px: 0, size_px: 0 });
    let start: u64 = 1_000;
    pipeline.queue_event(BackendEvent::WorkspaceChanged { cluster_id: 7 }, start);
    pipeline.queue_event(BackendEvent::WindowChanged { cluster_id: 7, window_id: 42 }, start);

    let clusters = vec![ClusterLayoutInput {
        cluster_id: 7,
        area: rect(0, 0, 100, 50),
        windows: vec![42, 43],
        first_seen_at: HashMap::from([(42, 10), (43, 20)]),
    }];
    let current = HashMap::from([(42, rect(0, 0, 40, 50)), (43, rect(40, 0, 40, 50))]);

    assert!(pipeline.try_build_frame(start + 8, &clusters, &current).is_none());

    let frame = pipeline
        .try_build_frame(start + 24, &clusters, &current)
        .expect("frame should be emitted once debounce window elapsed");
    assert_eq!(frame.drained_events.len(), 2);
    assert_eq!(frame.computed_targets.len(), 2);
    assert_eq!(frame.applied_ops.len(), 2);
    assert!(frame.command_batch.as_deref().expect("command batch expected").contains("[con_id=42]"));

    assert!(pipeline.try_build_frame(start + 40, &clusters, &current).is_none());
}

#[test]
fn diff_targets_respects_thresholds() {
    let current = HashMap::from([(7, rect(10, 10, 200, 100))]);
    let targets = HashMap::from([(7, rect(11, 10, 201, 100))]);
    let ignored = diff_targets(&current, &targets, DiffThresholds { position_px: 2, size_px: 2 });
    assert!(ignored.is_empty());
    let applied = diff_targets(&current, &targets, DiffThresholds { position_px: 0, size_px: 0 });
    assert_eq!(applied.len(), 1);
}

#[test]
fn canonical_order_prefers_explicit_then_first_seen_fallback() {
    let cluster = ClusterLayoutInput {
        cluster_id: 5,
        area: rect(0, 0, 90, 40),
        windows: vec![7, 9],
        first_seen_at: HashMap::from([(7, 30), (8, 10), (9, 20)]),
    };
    assert_eq!(canonical_cluster_window_order(&cluster), vec![7, 9, 8]);
}

#[test]
fn enter_cluster_zoom_tracks_original_workspace_and_builds_move_commands() {
    let mut controller = WorkspaceTransitionController::new("__continuum");
    let workspace_by_window = HashMap::from([
        (10, WorkspaceMetadata { id: Some(1), num: Some(1), name: "1:web".into() }),
        (11, WorkspaceMetadata { id: Some(2), num: None, name: "__continuum".into() }),
    ]);
    let commands = controller.enter_cluster_zoom(&[10, 11, 12], &workspace_by_window);
    assert_eq!(commands.len(), 1);
    assert_eq!(commands[0], "[con_id=10] move container to workspace \"__continuum\"");
    assert_eq!(controller.tracked_windows().len(), 2);
}

#[test]
fn restore_workspace_moves_live_windows_back_and_prunes_stale_entries() {
    let mut controller = WorkspaceTransitionController::new("__continuum");
    let workspace_by_window = HashMap::from([
        (20, WorkspaceMetadata { id: Some(1), num: Some(2), name: "2:code".into() }),
        (21, WorkspaceMetadata { id: Some(2), num: None, name: "scratch".into() }),
    ]);
    controller.enter_cluster_zoom(&[20, 21], &workspace_by_window);
    let live_windows = HashSet::from([20]);
    let commands = controller.restore_workspace(&[20, 21], &live_windows);
    assert_eq!(commands, vec!["[con_id=20] move container to workspace number 2"]);
    assert!(controller.tracked_windows().is_empty());
}

#[test]
fn restore_by_name_quotes_the_workspace() {
    let mut controller = WorkspaceTransitionController::new("__continuum");
    let workspace_by_window =
        HashMap::from([(30, WorkspaceMetadata { id: Some(3), num: None, name: "say \"hi\"".into() })]);
    controller.enter_cluster_zoom(&[30], &workspace_by_window);
    let live_windows = HashSet::from([30]);
    let commands = controller.restore_workspace(&[30], &live_windows);
    assert_eq!(commands, vec!["[con_id=30] move container to workspace \"say \\\"hi\\\"\""]);
}

#[test]
fn compute_splits_width_with_remainder_on_last_window() {
    let cluster = ClusterLayoutInput {
        cluster_id: 1,
        area: rect(10, 20, 100, 50),
        windows: vec![1, 2, 3],
        first_seen_at: HashMap::new(),
    };
    let targets = LayoutEngine.compute(&[cluster]);
    assert_eq!(targets[&1], rect(10, 20, 33, 50));
    assert_eq!(targets[&2], rect(43, 20, 33, 50));
    assert_eq!(targets[&3], rect(76, 20, 34, 50));
}

#[test]
fn apply_joins_commands_or_yields_nothing() {
    assert_eq!(LayoutEngine::apply(&[]), None);
    let ops = vec![
        LayoutOp { window_id: 4, target: rect(1, 2, 30, 40) },
        LayoutOp { window_id: 5, target: rect(-3, 0, 10, 10) },
    ];
    let batch = LayoutEngine::apply(&ops).expect("batch");
    assert!(batch.contains("[con_id=4]"));
    assert!(batch.contains("[con_id=5]"));
}
