use vibeshell::viewports::reconcile_output_viewports;

fn entries(list: &[(&str, i32)]) -> Vec<(String, i32)> {
    list.iter().map(|(n, v)| (n.to_string(), *v)).collect()
}

fn sorted(mut v: Vec<(String, i32)>) -> Vec<(String, i32)> {
    v.sort();
    v
}

#[test]
fn disconnected_outputs_lose_their_viewports() {
    let outputs = vec!["DP-1".to_string(), "HDMI-A-1".to_string()];
    let r = reconcile_output_viewports(&entries(&[("DP-1", 1), ("eDP-1", 2)]), 0, Some("DP-1"), "DP-1", &outputs, None);
    assert_eq!(sorted(r.output_viewports), entries(&[("DP-1", 1)]));
    assert_eq!(r.viewport, 1);
    assert_eq!(r.focused_output, "DP-1");
}

#[test]
fn new_focused_output_keeps_the_current_viewport() {
    let outputs = vec!["DP-1".to_string(), "HDMI-A-1".to_string()];
    let r = reconcile_output_viewports(&entries(&[("DP-1", 1)]), 7, Some("DP-1"), "HDMI-A-1", &outputs, Some("DP-1"));
    assert_eq!(sorted(r.output_viewports), entries(&[("DP-1", 1), ("HDMI-A-1", 7)]));
    assert_eq!(r.viewport, 7);
    assert_eq!(r.focused_output, "HDMI-A-1");
}

#[test]
fn primary_output_takes_over_when_the_focused_one_is_gone() {
    let outputs = vec!["DP-1".to_string(), "HDMI-A-1".to_string()];
    let r = reconcile_output_viewports(
        &entries(&[("eDP-1", 5), ("DP-1", 3), ("HDMI-A-1", 4)]),
        9,
        Some("eDP-1"),
        "HDMI-A-1",
        &outputs,
        Some("DP-1"),
    );
    assert_eq!(sorted(r.output_viewports), entries(&[("DP-1", 3), ("HDMI-A-1", 4)]));
    assert_eq!(r.viewport, 3);
    assert_eq!(r.focused_output, "DP-1");
    let without_primary =
        reconcile_output_viewports(&entries(&[("eDP-1", 5)]), 9, Some("eDP-1"), "DP-1", &outputs, None);
    assert_eq!(without_primary.focused_output, "DP-1");
    assert_eq!(without_primary.viewport, 9);
}
