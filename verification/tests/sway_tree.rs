use vibeshell::contracts::{WindowRole, WindowState};
use vibeshell::sway_tree::{find_focused_window_id, sway_facts, SwayNode, SwayNodeKind, SwayWorkspace};

fn node(id: i64, kind: SwayNodeKind, name: Option<&str>, children: Vec<SwayNode>) -> SwayNode {
    SwayNode {
        id,
        kind,
        name: name.map(|n| n.to_owned()),
        has_pid: false,
        app_id: None,
        class: None,
        transient_for: None,
        in_scratchpad: false,
        floating: false,
        fullscreen: false,
        focused: false,
        width: 0,
        height: 0,
        children,
    }
}

fn client(id: i64, title: &str, app_id: Option<&str>) -> SwayNode {
    SwayNode {
        has_pid: true,
        app_id: app_id.map(|a| a.to_owned()),
        width: 800,
        height: 600,
        ..node(id, SwayNodeKind::Con, Some(title), vec![])
    }
}

fn tree() -> SwayNode {
    let mut dialog = client(30, "Save as", Some("gimp"));
    dialog.floating = true;
    dialog.kind = SwayNodeKind::FloatingCon;
    let mut full = client(12, "Movie", Some("mpv"));
    full.fullscreen = true;
    full.focused = true;
    let mut scratch = client(40, "notes", Some("foot"));
    scratch.in_scratchpad = true;
    node(
        1,
        SwayNodeKind::Root,
        Some("root"),
        vec![
            node(
                2,
                SwayNodeKind::Output,
                Some("eDP-1"),
                vec![
                    node(
                        100,
                        SwayNodeKind::Workspace,
                        Some("1:web"),
                        vec![client(11, "Firefox", Some("firefox")), full, dialog],
                    ),
                    node(200, SwayNodeKind::Workspace, Some("chat"), vec![client(21, "Popup menu", Some("app"))]),
                ],
            ),
            node(3, SwayNodeKind::Output, Some("__i3"), vec![node(300, SwayNodeKind::Workspace, Some("__i3_scratch"), vec![scratch])]),
        ],
    )
}

fn workspace(id: i64, name: &str, x: f64) -> SwayWorkspace<f64> {
    SwayWorkspace { id, name: name.into(), x, y: 0.0, visible: true }
}

#[test]
fn sway_tree_windows_are_classified_and_sorted() {
    let facts = sway_facts(
        &tree(),
        vec![workspace(100, "1:web", 0.0), workspace(200, "chat", 10.0), workspace(300, "__i3_scratch", 0.0)],
    );
    let ids: Vec<u64> = facts.windows.iter().map(|w| w.id).collect();
    assert_eq!(ids, vec![11, 12, 21, 30, 40]);
    let by_id = |id: u64| facts.windows.iter().find(|w| w.id == id).unwrap();
    assert_eq!(by_id(11).role, WindowRole::Normal);
    assert_eq!(by_id(11).cluster_id, Some(100));
    assert_eq!(by_id(12).state, WindowState::Fullscreen);
    assert!(by_id(12).manual_position_override);
    assert_eq!(by_id(21).role, WindowRole::Utility);
    assert_eq!(by_id(30).role, WindowRole::Dialog);
    assert_eq!(by_id(30).state, WindowState::Floating);
    assert_eq!(by_id(40).role, WindowRole::Scratchpad);
    assert_eq!(by_id(40).state, WindowState::MinimizedLike);
    assert_eq!(by_id(40).cluster_id, None);
    assert_eq!(facts.window_geometry.get(&11), Some(&(800, 600)));
    assert_eq!(facts.clusters.len(), 2);
    assert_eq!(facts.clusters[0].windows, vec![11, 12, 30]);
    assert_eq!(facts.clusters[0].last_focus, Some(11));
    assert_eq!(facts.clusters[1].windows, vec![21]);
    assert_eq!(facts.clusters[1].x, 10.0);
}

#[test]
fn focused_client_window_is_found() {
    assert_eq!(find_focused_window_id(&tree()), Some(12));
    assert_eq!(find_focused_window_id(&node(1, SwayNodeKind::Root, None, vec![])), None);
}
