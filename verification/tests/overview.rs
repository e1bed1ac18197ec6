use vibeshell::contracts::{TransitionPhase, ZoomLevel, ZoomTransition};
use vibeshell::overview::{next_selection, pending_undive_target, truncate_display};

#[test]
fn truncate_display_leaves_short_strings_untouched() {
    assert_eq!(truncate_display("hi", 10), "hi");
    assert_eq!(truncate_display("", 10), "");
}

#[test]
fn truncate_display_replaces_tail_with_ellipsis() {
    let out = truncate_display("abcdefghijklmno", 6);
    assert_eq!(out, "abcde…");
    assert_eq!(out.chars().count(), 6);
}

#[test]
fn truncate_display_counts_characters_not_bytes() {
    let input = "ééééééééé";
    let out = truncate_display(input, 5);
    assert_eq!(out.chars().count(), 5);
    assert!(out.ends_with('…'));
}

#[test]
fn truncate_display_max_one_avoids_panic() {
    let out = truncate_display("abcdef", 1);
    assert_eq!(out, "…");
}

#[test]
fn truncate_display_max_zero_still_marks_the_cut() {
    assert_eq!(truncate_display("abc", 0), "…");
    assert_eq!(truncate_display("", 0), "");
}

#[test]
fn selection_steps_and_wraps() {
    let ids = vec![5, 6, 7];
    assert_eq!(next_selection(&ids, Some(6), 1), Some(7));
    assert_eq!(next_selection(&ids, Some(7), 1), Some(5));
    assert_eq!(next_selection(&ids, Some(5), -1), Some(7));
    assert_eq!(next_selection(&ids, None, 1), Some(6));
    assert_eq!(next_selection(&ids, Some(42), -1), Some(7));
    assert_eq!(next_selection(&vec![], Some(1), 1), None);
}

#[test]
fn undive_fires_once_per_fresh_cluster_to_overview_transition() {
    let t = ZoomTransition { phase: TransitionPhase::Started, from: ZoomLevel::Cluster(3), to: ZoomLevel::Overview, started_at_ms: 100 };
    assert_eq!(pending_undive_target(Some(t), None, false), Some(3));
    assert_eq!(pending_undive_target(Some(t), Some(100), false), None);
    assert_eq!(pending_undive_target(Some(t), Some(99), true), None);
    assert_eq!(pending_undive_target(None, None, false), None);
    let dive = ZoomTransition { phase: TransitionPhase::Started, from: ZoomLevel::Overview, to: ZoomLevel::Cluster(3), started_at_ms: 5 };
    assert_eq!(pending_undive_target(Some(dive), None, false), None);
}
