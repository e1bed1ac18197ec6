use vibeshell::contracts::{CanvasState, Cluster, Window, WindowRole, WindowState, ZoomLevel};
use vibeshell::launcher::{
    apply_filter, build_exec_command, cluster_match_score, launch_command, entry_match_score, window_match_score, expand_exec_token, parse_terminal_command, rank_entries,
    recent_windows, score_entry, search_windows_and_clusters, sort_by_category_and_score, usage_boost,
    DesktopEntry, ExecParseError, ResultCategory, ResultFilter, SearchResult, UsageStats, MATCH_EXACT_PREFIX,
};

fn cluster(id: u64, name: &str, x: f64, windows: Vec<u64>, last_focus: Option<u64>, recency: Vec<u64>) -> Cluster<f64> {
    Cluster { id, name: name.into(), x, y: 0.0, enabled: true, windows, last_focus, recency }
}

fn window(id: u64, title: &str, app_id: &str, cluster_id: Option<u64>) -> Window {
    Window {
        id,
        title: title.into(),
        app_id: Some(app_id.into()),
        cluster_id,
        role: WindowRole::Normal,
        state: WindowState::Tiled,
        ..Default::default()
    }
}

fn fixture_canvas() -> CanvasState<f64> {
    CanvasState {
        state_revision: 1,
        zoom: Default::default(),
        clusters: vec![
            cluster(1, "web", 0.0, vec![101, 102], Some(101), vec![101, 102]),
            cluster(2, "terminals", 200.0, vec![201], Some(201), vec![201]),
        ],
        windows: vec![
            window(101, "My personal Firefox window", "firefox", Some(1)),
            window(102, "GitHub — Firefox", "firefox", Some(1)),
            window(201, "zsh", "foot", Some(2)),
            window(999, "orphan pane", "code", None),
        ],
    }
}

fn window_ids(out: &[SearchResult]) -> Vec<u64> {
    out.iter()
        .filter_map(|r| match r {
            SearchResult::Window { window_id, .. } => Some(*window_id),
            _ => None,
        })
        .collect()
}

#[test]
fn empty_query_returns_no_results() {
    let canvas = fixture_canvas();
    assert!(search_windows_and_clusters(&canvas, "", 10).is_empty());
}

#[test]
fn app_id_prefix_match_outranks_title_substring() {
    let canvas = fixture_canvas();
    let results = search_windows_and_clusters(&canvas, "fire", 10);
    assert!(!results.is_empty());
    let top_score = results[0].score();
    assert_eq!(top_score, MATCH_EXACT_PREFIX * 10_000);
}

#[test]
fn title_substring_match_returns_hit() {
    let canvas = fixture_canvas();
    let results = search_windows_and_clusters(&canvas, "github", 10);
    assert!(results.iter().any(|r| matches!(
        r,
        SearchResult::Window { title, .. } if title.contains("GitHub")
    )));
}

#[test]
fn cluster_name_prefix_match_is_returned() {
    let canvas = fixture_canvas();
    let results = search_windows_and_clusters(&canvas, "term", 10);
    assert!(results.iter().any(|r| matches!(
        r,
        SearchResult::Cluster { name, .. } if name == "terminals"
    )));
}

#[test]
fn window_without_cluster_labeled_unassigned() {
    let canvas = fixture_canvas();
    let results = search_windows_and_clusters(&canvas, "orphan", 10);
    let hit = results
        .iter()
        .find(|r| matches!(r, SearchResult::Window { window_id: 999, .. }))
        .expect("orphan window should match");
    match hit {
        SearchResult::Window { cluster_name, .. } => {
            assert_eq!(cluster_name, "unassigned");
        }
        _ => panic!("expected Window variant"),
    }
}

#[test]
fn results_truncated_to_max_results() {
    let canvas = fixture_canvas();
    let results = search_windows_and_clusters(&canvas, "e", 2);
    assert!(results.len() <= 2);
}

#[test]
fn results_sorted_by_score_descending() {
    let canvas = fixture_canvas();
    let results = search_windows_and_clusters(&canvas, "f", 10);
    for pair in results.windows(2) {
        assert!(
            pair[0].score() >= pair[1].score(),
            "results not sorted descending: {} then {}",
            pair[0].score(),
            pair[1].score()
        );
    }
}

#[test]
fn non_matching_query_returns_empty() {
    let canvas = fixture_canvas();
    let results = search_windows_and_clusters(&canvas, "qzzzzx", 10);
    assert!(results.is_empty());
}

#[test]
fn recent_windows_returns_empty_when_no_clusters() {
    let canvas: CanvasState<f64> = CanvasState::default();
    assert!(recent_windows(&canvas, 10).is_empty());
}

#[test]
fn recent_windows_orders_active_cluster_first() {
    let mut canvas = fixture_canvas();
    canvas.zoom = ZoomLevel::Cluster(2);
    canvas.clusters[0].recency = vec![102, 101];
    canvas.clusters[1].recency = vec![201];
    let out = recent_windows(&canvas, 10);
    assert_eq!(window_ids(&out), vec![201, 102, 101]);
}

#[test]
fn recent_windows_dedupes_across_clusters() {
    let mut canvas = fixture_canvas();
    canvas.clusters[0].recency = vec![101, 102];
    canvas.clusters[1].recency = vec![101, 201];
    let out = recent_windows(&canvas, 10);
    let ids = window_ids(&out);
    assert_eq!(ids.iter().filter(|&&id| id == 101).count(), 1);
}

#[test]
fn recent_windows_scores_descend_with_position() {
    let canvas = fixture_canvas();
    let out = recent_windows(&canvas, 10);
    for pair in out.windows(2) {
        assert!(
            pair[0].score() > pair[1].score(),
            "scores must strictly descend: {} then {}",
            pair[0].score(),
            pair[1].score()
        );
    }
}

#[test]
fn recent_windows_respects_max_results() {
    let canvas = fixture_canvas();
    let out = recent_windows(&canvas, 2);
    assert!(out.len() <= 2);
}

#[test]
fn result_filter_cycles_through_all_then_wraps() {
    let seen = [
        ResultFilter::All,
        ResultFilter::All.next(),
        ResultFilter::All.next().next(),
        ResultFilter::All.next().next().next(),
        ResultFilter::All.next().next().next().next(),
    ];
    assert_eq!(seen[0], ResultFilter::All);
    assert_eq!(seen[1], ResultFilter::Only(ResultCategory::App));
    assert_eq!(seen[2], ResultFilter::Only(ResultCategory::Window));
    assert_eq!(seen[3], ResultFilter::Only(ResultCategory::Cluster));
    assert_eq!(seen[4], ResultFilter::All);
}

#[test]
fn result_filter_includes_respects_category() {
    assert!(ResultFilter::All.includes(ResultCategory::App));
    assert!(ResultFilter::All.includes(ResultCategory::Window));
    assert!(ResultFilter::All.includes(ResultCategory::Cluster));
    assert!(ResultFilter::Only(ResultCategory::Window).includes(ResultCategory::Window));
    assert!(!ResultFilter::Only(ResultCategory::Window).includes(ResultCategory::App));
}

#[test]
fn apply_filter_retains_only_matching_category() {
    let canvas = fixture_canvas();
    let mut results = search_windows_and_clusters(&canvas, "fire", 10);
    results.extend(search_windows_and_clusters(&canvas, "web", 10));
    let before_len = results.len();
    assert!(before_len > 0);
    apply_filter(&mut results, ResultFilter::Only(ResultCategory::Cluster));
    assert!(results.iter().all(|r| r.category() == ResultCategory::Cluster));
}

#[test]
fn sort_by_category_groups_apps_windows_clusters_in_order() {
    let canvas = fixture_canvas();
    let mut mixed: Vec<SearchResult> = Vec::new();
    mixed.extend(recent_windows(&canvas, 10));
    mixed.extend(search_windows_and_clusters(&canvas, "web", 10));
    sort_by_category_and_score(&mut mixed);
    let mut prev_order: u8 = 0;
    for r in &mixed {
        let order = r.category().display_order();
        assert!(order >= prev_order, "category out of order in sorted list");
        prev_order = order;
    }
}

#[test]
fn sort_by_category_descends_by_score_within_group() {
    let canvas = fixture_canvas();
    let mut windows = recent_windows(&canvas, 10);
    sort_by_category_and_score(&mut windows);
    for pair in windows.windows(2) {
        assert!(pair[0].score() >= pair[1].score());
    }
}

#[test]
fn recent_windows_skips_ids_not_in_windows_list() {
    let mut canvas = fixture_canvas();
    canvas.clusters[0].recency = vec![555, 102];
    let out = recent_windows(&canvas, 10);
    let ids = window_ids(&out);
    assert!(!ids.contains(&555));
    assert!(ids.contains(&102));
}

// ---------------------------------------------------------------------------
// Applications: scoring, usage and launching.
// ---------------------------------------------------------------------------

fn entry(id: &str, name: &str, exec: &str, icon: Option<&str>, keywords: &[&str]) -> DesktopEntry {
    DesktopEntry {
        id: id.into(),
        path: format!("/usr/share/applications/{id}"),
        name: name.into(),
        exec_line: exec.into(),
        icon: icon.map(|s| s.to_owned()),
        keywords: keywords.iter().map(|k| (*k).to_owned()).collect(),
        terminal: false,
    }
}

#[test]
fn record_launch_counts_and_stamps_time() {
    let mut usage = UsageStats::default();
    assert_eq!(usage.launch_count("firefox.desktop"), 0);
    usage.record_launch("firefox.desktop", 1_700_000_000);
    usage.record_launch("firefox.desktop", 1_700_000_500);
    usage.record_launch("foot.desktop", 1_700_000_100);
    assert_eq!(usage.launch_count("firefox.desktop"), 2);
    assert_eq!(usage.last_launched("firefox.desktop"), 1_700_000_500);
    assert_eq!(usage.launch_count("foot.desktop"), 1);
    assert_eq!(usage.last_launched("foot.desktop"), 1_700_000_100);
    assert_eq!(usage.launch_count("other.desktop"), 0);
}

#[test]
fn usage_boost_adds_launches_and_recency() {
    let mut usage = UsageStats::default();
    usage.record_launch("a.desktop", 50_000);
    usage.record_launch("a.desktop", 50_000);
    let e = entry("a.desktop", "Alpha", "alpha", None, &[]);
    // 2 launches * 5 + 50_000 / 10_000
    assert_eq!(usage_boost(&e, &usage), 15);
}

#[test]
fn score_entry_prefers_name_prefix_over_keyword() {
    let usage = UsageStats::default();
    let firefox = entry("firefox.desktop", "Firefox", "firefox %u", None, &["browser", "web"]);
    let prefix = score_entry(&firefox, "fire", &usage).expect("prefix match");
    let keyword = score_entry(&firefox, "brow", &usage).expect("keyword match");
    assert!(prefix > keyword);
    assert_eq!(score_entry(&firefox, "zzz", &usage), None);
}

#[test]
fn rank_entries_orders_by_score_and_limits() {
    let usage = UsageStats::default();
    let entries = vec![
        entry("b.desktop", "Files", "nautilus", None, &["folder"]),
        entry("a.desktop", "Firefox", "firefox", None, &[]),
        entry("c.desktop", "Terminal", "foot", None, &[]),
    ];
    let ranked = rank_entries(&entries, "fi", 1, &usage);
    assert_eq!(ranked.len(), 1);
    let all = rank_entries(&entries, "fi", 10, &usage);
    assert_eq!(all.len(), 2);
    for pair in all.windows(2) {
        assert!(pair[0].score >= pair[1].score);
    }
}

#[test]
fn expand_exec_token_replaces_field_codes() {
    let e = entry("app.desktop", "My App", "app", Some("app-icon"), &[]);
    assert_eq!(expand_exec_token("%c", &e), "My App");
    assert_eq!(expand_exec_token("100%%", &e), "100%");
    assert_eq!(expand_exec_token("%i", &e), "--icon app-icon");
    assert_eq!(expand_exec_token("%k", &e), "/usr/share/applications/app.desktop");
    assert_eq!(expand_exec_token("%U", &e), "");
    assert_eq!(expand_exec_token("tail%", &e), "tail");
    let no_icon = entry("app.desktop", "My App", "app", None, &[]);
    assert_eq!(expand_exec_token("%i", &no_icon), "");
}

#[test]
fn build_exec_command_drops_empty_words() {
    let e = entry("ff.desktop", "Firefox", "firefox --new-window %u", None, &[]);
    let cmd = build_exec_command(&e).expect("splits");
    assert_eq!(cmd, vec!["firefox".to_owned(), "--new-window".to_owned()]);
    let quoted = entry("q.desktop", "Q", "sh -c 'echo hi'", None, &[]);
    assert_eq!(
        build_exec_command(&quoted).expect("splits"),
        vec!["sh".to_owned(), "-c".to_owned(), "echo hi".to_owned()]
    );
}

#[test]
fn build_exec_command_reports_unclosed_quote() {
    let e = entry("bad.desktop", "Bad", "sh -c 'oops", None, &[]);
    let err = build_exec_command(&e).expect_err("unclosed quote");
    assert_eq!(err, ExecParseError::MissingClosingQuote);
    assert_eq!(err.message(), "missing closing quote");
}

#[test]
fn parse_terminal_command_falls_back_to_foot() {
    assert_eq!(parse_terminal_command("kitty --single-instance"), vec!["kitty".to_owned(), "--single-instance".to_owned()]);
    assert_eq!(parse_terminal_command(""), vec!["foot".to_owned()]);
    assert_eq!(parse_terminal_command("alacritty \"unterminated"), vec!["foot".to_owned()]);
}

#[test]
fn lowered_text_scorers_rank_by_match_kind() {
    assert_eq!(window_match_score("github — firefox", "firefox", "fire"), Some(MATCH_EXACT_PREFIX * 10_000));
    assert_eq!(window_match_score("github — firefox", "firefox", "git"), Some(20_000));
    assert_eq!(window_match_score("zsh", "foot", "oo"), Some(10_000));
    assert_eq!(window_match_score("zsh", "foot", "x"), None);
    assert_eq!(cluster_match_score("terminals", "term"), Some(40_000));
    assert_eq!(cluster_match_score("terminals", "min"), Some(20_000));
    assert_eq!(cluster_match_score("terminals", "web"), None);
    let kws = vec!["browser".to_owned(), "internet".to_owned()];
    // word prefix of the name: class 3, a 3-byte query adds (100 - 3) * 10
    assert_eq!(entry_match_score("visual studio code", "code", &kws, "stu", 5), Some(30_000 + 970 + 5));
    assert_eq!(entry_match_score("visual studio code", "code", &kws, "net", 0), Some(10_000 + 970));
    assert_eq!(entry_match_score("visual studio code", "code", &kws, "", 7), Some(7));
    assert_eq!(entry_match_score("visual studio code", "code", &kws, "zzz", 0), None);
}

#[test]
fn score_entry_compares_in_lowercase_and_by_words() {
    let usage = UsageStats::default();
    let code = entry("code.desktop", "Visual Studio Code", "code --new", None, &["Editor"]);
    assert_eq!(score_entry(&code, "stu", &usage), Some(30_000 + 970));
    assert_eq!(score_entry(&code, "visual", &usage), Some(40_000 + 940));
    assert_eq!(score_entry(&code, "edit", &usage), Some(10_000 + 960));
}

#[test]
fn launch_command_runs_plain_entries_directly() {
    let e = entry("gedit.desktop", "Text Editor", "gedit --new-window %U", None, &[]);
    let line = launch_command(&e, "alacritty --class float", false).unwrap().unwrap();
    assert_eq!(line, vec!["gedit".to_string(), "--new-window".to_string()]);
}

#[test]
fn launch_command_wraps_terminal_entries() {
    let mut e = entry("htop.desktop", "htop", "htop -d 10", None, &[]);
    e.terminal = true;
    let line = launch_command(&e, "alacritty --class float", false).unwrap().unwrap();
    assert_eq!(line, vec!["alacritty", "--class", "float", "-e", "htop", "-d", "10"]);
    let plain = entry("top.desktop", "top", "top", None, &[]);
    let forced = launch_command(&plain, "", true).unwrap().unwrap();
    assert_eq!(forced, vec!["foot", "-e", "top"]);
}

#[test]
fn launch_command_reports_empty_and_unparsable_lines() {
    let only_codes = entry("x.desktop", "X", "%U %f", None, &[]);
    assert_eq!(launch_command(&only_codes, "foot", true).unwrap(), None);
    let broken = entry("y.desktop", "Y", "run 'unterminated", None, &[]);
    assert_eq!(launch_command(&broken, "foot", false), Err(ExecParseError::MissingClosingQuote));
}
