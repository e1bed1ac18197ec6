use vibeshell::cheatsheet::{
    categorize, cheatsheet_rows, describe_command, humanize_key, parse_binding_line, parse_bindings, sort_bindings,
    Category, CheatsheetRow,
};

#[test]
fn parse_simple_binding() {
    let line = "bindsym $mod+equal exec vibeshellctl ipc zoom-in-mode";
    let parsed = parse_binding_line(line).expect("should parse");
    assert_eq!(parsed.0, "$mod+equal");
    assert_eq!(parsed.1, "vibeshellctl ipc zoom-in-mode");
}

#[test]
fn parse_binding_preserves_multi_word_command() {
    let line = r#"bindsym Print exec grim -g "$(slurp)" - | wl-copy"#;
    let (key, command) = parse_binding_line(line).expect("should parse");
    assert_eq!(key, "Print");
    assert!(command.contains("grim"));
    assert!(command.contains("wl-copy"));
}

#[test]
fn parse_skips_comments_and_blank_lines() {
    let text = "\
# comment line

bindsym $mod+equal exec vibeshellctl ipc zoom-in-mode
# another comment
bindsym $mod+minus exec vibeshellctl ipc zoom-out-mode
";
    let parsed = parse_bindings(text);
    assert_eq!(parsed.len(), 2);
}

#[test]
fn parse_rejects_lines_without_exec() {
    assert!(parse_binding_line("bindsym $mod+q focus").is_none());
    assert!(parse_binding_line("random line").is_none());
    assert!(parse_binding_line("").is_none());
}

#[test]
fn categorize_routes_zoom_and_cycle_to_navigation() {
    assert_eq!(categorize("vibeshellctl ipc zoom-in-mode"), Category::Navigation);
    assert_eq!(
        categorize("vibeshellctl ipc cycle-cluster --direction forward"),
        Category::Navigation
    );
}

#[test]
fn categorize_routes_keyboard_move_to_move() {
    assert_eq!(categorize("vibeshellctl ipc keyboard-move-by --dx 96 --dy 0"), Category::Move);
    assert_eq!(categorize("vibeshellctl ipc commit-keyboard-move"), Category::Move);
}

#[test]
fn categorize_routes_media_keys_to_system() {
    assert_eq!(categorize("wpctl set-volume @DEFAULT_AUDIO_SINK@ 5%+"), Category::System);
    assert_eq!(categorize("brightnessctl set +10%"), Category::System);
    assert_eq!(categorize(r#"grim -g "$(slurp)" - | wl-copy"#), Category::System);
}

#[test]
fn categorize_routes_swaymsg_exit_to_session() {
    assert_eq!(categorize("swaymsg exit"), Category::Session);
    assert_eq!(categorize("swaymsg reload"), Category::Session);
}

#[test]
fn categorize_falls_back_to_other() {
    assert_eq!(categorize("some custom command"), Category::Other);
}

#[test]
fn humanize_key_replaces_mod_token() {
    assert_eq!(humanize_key("$mod+Shift+Up"), "Super+Shift+Up");
    assert_eq!(humanize_key("XF86AudioMute"), "XF86AudioMute");
}

#[test]
fn describe_command_strips_known_prefixes() {
    assert_eq!(describe_command("vibeshellctl ipc zoom-in-mode"), "vibeshell: zoom in mode");
    assert_eq!(describe_command("swaymsg exit"), "sway: exit");
    assert_eq!(describe_command("custom"), "custom");
}

#[test]
fn full_bindings_file_parses_and_categorizes() {
    let text = "\
# header
bindsym $mod+space exec swaymsg '[app_id=\"com.vibeshell.launcher\"] kill' || launcher
bindsym Print exec grim -g \"$(slurp)\" - | wl-copy
bindsym XF86AudioMute exec wpctl set-mute @DEFAULT_AUDIO_SINK@ toggle
bindsym $mod+equal exec vibeshellctl ipc zoom-in-mode
bindsym $mod+Shift+e exec swaymsg exit
bindsym $mod+Shift+Up exec vibeshellctl ipc keyboard-move-by --dx 0 --dy -96
";
    let bindings = parse_bindings(text);
    assert_eq!(bindings.len(), 6);
    let categories: Vec<Category> = bindings.iter().map(|b| b.category).collect();
    assert!(categories.contains(&Category::Shell));
    assert!(categories.contains(&Category::System));
    assert!(categories.contains(&Category::Navigation));
    assert!(categories.contains(&Category::Session));
    assert!(categories.contains(&Category::Move));
}

#[test]
fn sort_bindings_groups_then_orders_keys() {
    let text = "\
bindsym $mod+Shift+e exec swaymsg exit
bindsym $mod+minus exec vibeshellctl ipc zoom-out-mode
bindsym $mod+equal exec vibeshellctl ipc zoom-in-mode
bindsym XF86AudioMute exec wpctl set-mute @DEFAULT_AUDIO_SINK@ toggle
";
    let sorted = sort_bindings(parse_bindings(text));
    let keys: Vec<&str> = sorted.iter().map(|b| b.key.as_str()).collect();
    assert_eq!(keys, vec!["$mod+equal", "$mod+minus", "XF86AudioMute", "$mod+Shift+e"]);
    assert_eq!(Category::Navigation.label(), "Navigation");
    assert_eq!(Category::Move.label(), "Move windows");
}

#[test]
fn parse_binding_handles_surrounding_whitespace_and_crlf() {
    let parsed = parse_binding_line("  bindsym\t$mod+q   exec   kill-it  \r").expect("parses");
    assert_eq!(parsed.0, "$mod+q");
    assert_eq!(parsed.1, "kill-it");
    let bindings = parse_bindings("bindsym a exec b\r\nbindsym c exec d");
    assert_eq!(bindings.len(), 2);
    assert_eq!(bindings[0].command, "b");
    assert_eq!(bindings[1].key, "c");
    assert!(parse_binding_line("bindsym $mod+q exec   ").is_none());
}

#[test]
fn sheet_rows_head_each_section_once() {
    let contents = "bindsym $mod+equal exec vibeshellctl ipc zoom-in-mode\n\
                    bindsym $mod+minus exec vibeshellctl ipc zoom-out-mode\n\
                    bindsym $mod+Shift+e exec swaymsg exit\n";
    let bindings = sort_bindings(parse_bindings(contents));
    let rows = cheatsheet_rows(&bindings);
    assert_eq!(rows.len(), 5);
    assert_eq!(rows[0], CheatsheetRow::Header(Category::Navigation));
    assert_eq!(
        rows[1],
        CheatsheetRow::Entry {
            key: "Super+equal".to_string(),
            description: describe_command("vibeshellctl ipc zoom-in-mode"),
        }
    );
    assert!(matches!(rows[2], CheatsheetRow::Entry { .. }));
    assert_eq!(rows[3], CheatsheetRow::Header(Category::Session));
    assert_eq!(
        rows[4],
        CheatsheetRow::Entry { key: "Super+Shift+e".to_string(), description: describe_command("swaymsg exit") }
    );
    assert!(cheatsheet_rows(&[]).is_empty());
}
