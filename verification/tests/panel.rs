use vibeshell::contracts::{CanvasState, Cluster, Window};
use vibeshell::panel::{
    canvas_to_panel_state, format_audio, format_battery, format_network, format_workspaces, friendly_type,
    panel_status_from, parse_status, sort_workspaces, sway_workspace_num, AudioStatus, BatteryStatus, BatteryTrend,
    NetworkStatus, PanelStatus, WorkspaceState, find_focused_title, TitleNode,
};

fn cluster(id: u64, name: &str, enabled: bool, windows: Vec<u64>, last_focus: Option<u64>) -> Cluster<f64> {
    Cluster { id, name: name.into(), x: 0.0, y: 0.0, enabled, windows, last_focus, recency: vec![] }
}

fn fixture_canvas() -> CanvasState<f64> {
    CanvasState {
        clusters: vec![cluster(1, "1", false, vec![], None), cluster(2, "play", true, vec![10], Some(10))],
        windows: vec![Window { id: 10, title: "Editor — main.rs".into(), ..Default::default() }],
        ..Default::default()
    }
}

#[test]
fn projects_clusters_to_workspaces() {
    let panel = canvas_to_panel_state(&fixture_canvas(), "winit");
    assert_eq!(panel.workspaces.len(), 2);
    assert_eq!(panel.workspaces[0].name, "1");
    assert_eq!(panel.workspaces[0].num, Some(1));
    assert!(!panel.workspaces[0].focused);
    assert_eq!(panel.workspaces[1].name, "play");
    assert_eq!(panel.workspaces[1].num, None);
    assert!(panel.workspaces[1].focused);
    assert_eq!(panel.workspaces[1].output, "winit");
}

#[test]
fn picks_focused_title_from_active_cluster() {
    let panel = canvas_to_panel_state(&fixture_canvas(), "winit");
    assert_eq!(panel.focused_title.as_deref(), Some("Editor — main.rs"));
}

#[test]
fn empty_canvas_yields_empty_panel() {
    let panel = canvas_to_panel_state(&CanvasState::<f64>::default(), "winit");
    assert!(panel.workspaces.is_empty());
    assert!(panel.focused_title.is_none());
}

#[test]
fn workspace_numbers_read_only_positive_decimal_names() {
    let canvas = CanvasState {
        clusters: vec![
            cluster(1, "0", true, vec![], None),
            cluster(2, "-3", true, vec![], None),
            cluster(3, "+7", true, vec![], None),
            cluster(4, "99999999999", true, vec![], None),
            cluster(5, "12a", true, vec![], None),
        ],
        ..Default::default()
    };
    let panel = canvas_to_panel_state(&canvas, "out");
    let nums: Vec<Option<i32>> = panel.workspaces.iter().map(|w| w.num).collect();
    assert_eq!(nums, vec![None, None, Some(7), None, None]);
}

#[test]
fn empty_title_is_not_shown() {
    let mut canvas = fixture_canvas();
    canvas.windows[0].title = String::new();
    assert!(canvas_to_panel_state(&canvas, "winit").focused_title.is_none());
}

fn ws(num: Option<i32>, name: &str, focused: bool, visible: bool, urgent: bool) -> WorkspaceState {
    WorkspaceState { id: 0, num, name: name.into(), output: "eDP-1".into(), focused, visible, urgent }
}

#[test]
fn format_workspaces_marks_state_and_urgency() {
    assert_eq!(format_workspaces(&[]), "no workspaces");
    let strip = vec![
        ws(Some(1), "1:web", true, true, false),
        ws(None, "chat", false, true, true),
        ws(Some(0), "zero", false, false, false),
    ];
    assert_eq!(format_workspaces(&strip), "●1 ◉chat! ○zero");
}

#[test]
fn sort_workspaces_puts_unnumbered_last() {
    let sorted = sort_workspaces(vec![
        ws(None, "b", false, false, false),
        ws(Some(3), "3", false, false, false),
        ws(None, "a", false, false, false),
        ws(Some(1), "1", false, false, false),
    ]);
    let names: Vec<&str> = sorted.iter().map(|w| w.name.as_str()).collect();
    assert_eq!(names, vec!["1", "3", "a", "b"]);
    assert_eq!(sway_workspace_num(-1), None);
    assert_eq!(sway_workspace_num(4), Some(4));
}

#[test]
fn maps_known_nm_types() {
    assert_eq!(friendly_type("802-11-wireless"), "wifi");
    assert_eq!(friendly_type("802-3-ethernet"), "ethernet");
}

#[test]
fn passes_through_unknown_types() {
    assert_eq!(friendly_type("vpn"), "vpn");
    assert_eq!(friendly_type("bluetooth"), "bluetooth");
}

#[test]
fn status_labels_read_as_the_panel_shows_them() {
    assert_eq!(format_audio(AudioStatus { volume_percent: 45, muted: false }), "🔊 45%");
    assert_eq!(format_audio(AudioStatus { volume_percent: 45, muted: true }), "🔇 muted");
    assert_eq!(
        format_network(NetworkStatus { connected: true, connection_type: "wifi".into() }),
        "📶 connected (wifi)"
    );
    assert_eq!(
        format_network(NetworkStatus { connected: false, connection_type: "offline".into() }),
        "📶 disconnected"
    );
    assert_eq!(format_battery(BatteryStatus { percent: 80, trend: BatteryTrend::Charging }), "⚡ 80%");
    assert_eq!(format_battery(BatteryStatus { percent: 7, trend: BatteryTrend::Full }), "🔋 7%");
}

#[test]
fn missing_readings_fall_back_to_not_available() {
    let status = panel_status_from(None, None, Some(BatteryStatus { percent: 100, trend: BatteryTrend::Unknown }));
    assert_eq!(status.audio, "audio N/A");
    assert_eq!(status.network, "network N/A");
    assert_eq!(status.battery, "🔋 100%");
    let d = PanelStatus::default();
    assert_eq!(d.audio, "audio N/A");
    assert_eq!(d.network, "network N/A");
    assert_eq!(d.battery, "battery N/A");
}

#[test]
fn parse_status_ignores_case_and_whitespace() {
    assert_eq!(parse_status(" Charging\n"), BatteryTrend::Charging);
    assert_eq!(parse_status("DISCHARGING"), BatteryTrend::Discharging);
    assert_eq!(parse_status("Full"), BatteryTrend::Full);
    assert_eq!(parse_status("Not charging"), BatteryTrend::Unknown);
}

fn node(focused: bool, name: Option<&str>, children: Vec<TitleNode>) -> TitleNode {
    TitleNode { focused, name: name.map(|n| n.to_owned()), children }
}

#[test]
fn focused_title_is_found_depth_first() {
    let tree = node(
        false,
        Some("root"),
        vec![
            node(false, Some("output"), vec![node(true, Some("   "), vec![]), node(false, Some("unfocused"), vec![])]),
            node(false, None, vec![node(true, Some("  Editor  "), vec![]), node(true, Some("Later"), vec![])]),
        ],
    );
    assert_eq!(find_focused_title(&tree).as_deref(), Some("Editor"));
    assert_eq!(find_focused_title(&node(false, Some("x"), vec![])), None);
}

#[test]
fn title_ignores_windows_focused_in_disabled_clusters() {
    let mut a = Window::default();
    a.id = 5;
    a.title = "A".into();
    let mut b = Window::default();
    b.id = 10;
    b.title = "B".into();
    let canvas = CanvasState {
        state_revision: 0,
        zoom: Default::default(),
        clusters: vec![cluster(1, "1", false, vec![5], Some(5)), cluster(2, "2", true, vec![10], Some(10))],
        windows: vec![a, b],
    };
    assert_eq!(canvas_to_panel_state(&canvas, "winit").focused_title.as_deref(), Some("B"));
    let mut idle = canvas.clone();
    idle.clusters[1].last_focus = None;
    assert!(canvas_to_panel_state(&idle, "winit").focused_title.is_none());
}
