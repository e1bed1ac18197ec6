use vibeshell::keybindings::{help_text, parse_args, render, BindingConfig};

#[test]
fn generated_output_is_deterministic() {
    let config = BindingConfig::default();
    let first = render(&config);
    let second = render(&config);
    assert_eq!(first, second);
    assert!(first.contains("bindsym $mod+space exec"));
    assert!(first.contains("bindsym XF86AudioRaiseVolume exec"));
    assert!(first.contains("bindsym $mod+equal exec vibeshellctl ipc zoom-in-mode"));
    assert!(first.contains("bindsym $mod+period exec vibeshellctl ipc cycle-strip-forward"));
    assert!(first.contains("bindsym $mod+Tab exec vibeshellctl ipc cycle-cluster"));
    assert!(first.contains("bindsym $mod+Shift+r exec"));
}

#[test]
fn rendered_file_has_header_groups_and_trailing_newline() {
    let out = render(&BindingConfig::default());
    let lines: Vec<&str> = out.split('\n').collect();
    assert!(lines[0].starts_with("# This file is"));
    assert_eq!(lines[1], "# Do not edit manually.");
    assert_eq!(lines[2], "");
    assert_eq!(lines[3], "bindsym $mod+space exec swaymsg '[app_id=\"com.vibeshell.launcher\"] kill' || launcher");
    assert_eq!(lines[5], "");
    assert!(out.ends_with("bindsym $mod+Shift+r exec swaymsg reload\n"));
    assert_eq!(lines.len(), 23);
}

#[test]
fn parse_args_overrides_keys_and_commands() {
    let args: Vec<String> = ["--output", "/tmp/out", "--zoom-in-mode-key", "$mod+z", "--shell-quit-command", "bye"]
        .iter()
        .map(|s| s.to_string())
        .collect();
    let config = parse_args(&args).expect("valid arguments");
    assert_eq!(config.output, "/tmp/out");
    assert_eq!(config.zoom_in_mode_key, "$mod+z");
    assert_eq!(config.shell_quit_command, "bye");
    assert_eq!(config.zoom_out_mode_key, "$mod+minus");
    assert!(render(&config).contains("bindsym $mod+z exec vibeshellctl ipc zoom-in-mode"));
}

#[test]
fn parse_args_reports_missing_values_unknown_flags_and_help() {
    let missing = parse_args(&vec!["--output".to_string()]).expect_err("missing value");
    assert_eq!(missing, "missing value for --output");
    let unknown = parse_args(&vec!["--bogus".to_string(), "x".to_string()]).expect_err("unknown flag");
    assert!(unknown.starts_with("unknown argument: --bogus\n\nUsage:"));
    let help = parse_args(&vec!["--help".to_string(), "x".to_string()]).expect_err("help");
    assert_eq!(help, help_text());
    assert!(help.contains("  --cycle-cluster-backward-command <command>"));
    let lone_help = parse_args(&vec!["-h".to_string()]).expect_err("no value after -h");
    assert_eq!(lone_help, "missing value for -h");
    assert_eq!(parse_args(&vec![]).expect("defaults"), BindingConfig::default());
}
