//! The sway key bindings the shell installs: their defaults, the command
//! line that overrides them, and the bindings file written from them.

use vstd::prelude::*;

use crate::text::{
    chars_eq, chars_of, has_substring, join_strings, join_with, lemma_join_with_inner, push_str, string_seq,
};

verus! {

broadcast use vstd::seq_lib::group_seq_properties;

/// The key and command of every shell binding, and the file they are
/// written to.
#[derive(Debug, Clone, PartialEq, Eq)]
pub struct BindingConfig {
    pub output: String,
    pub launcher_toggle_key: String,
    pub launcher_toggle_command: String,
    pub screenshot_key: String,
    pub screenshot_command: String,
    pub volume_up_key: String,
    pub volume_up_command: String,
    pub volume_down_key: String,
    pub volume_down_command: String,
    pub volume_mute_key: String,
    pub volume_mute_command: String,
    pub brightness_up_key: String,
    pub brightness_up_command: String,
    pub brightness_down_key: String,
    pub brightness_down_command: String,
    pub shell_quit_key: String,
    pub shell_quit_command: String,
    pub shell_restart_key: String,
    pub shell_restart_command: String,
    pub zoom_in_mode_key: String,
    pub zoom_in_mode_command: String,
    pub zoom_out_mode_key: String,
    pub zoom_out_mode_command: String,
    pub cycle_strip_forward_key: String,
    pub cycle_strip_forward_command: String,
    pub cycle_strip_backward_key: String,
    pub cycle_strip_backward_command: String,
    pub cycle_cluster_forward_key: String,
    pub cycle_cluster_forward_command: String,
    pub cycle_cluster_backward_key: String,
    pub cycle_cluster_backward_command: String,
}

/// Mathematical view of a binding configuration.
pub struct BindingConfigView {
    pub output: Seq<char>,
    pub launcher_toggle_key: Seq<char>,
    pub launcher_toggle_command: Seq<char>,
    pub screenshot_key: Seq<char>,
    pub screenshot_command: Seq<char>,
    pub volume_up_key: Seq<char>,
    pub volume_up_command: Seq<char>,
    pub volume_down_key: Seq<char>,
    pub volume_down_command: Seq<char>,
    pub volume_mute_key: Seq<char>,
    pub volume_mute_command: Seq<char>,
    pub brightness_up_key: Seq<char>,
    pub brightness_up_command: Seq<char>,
    pub brightness_down_key: Seq<char>,
    pub brightness_down_command: Seq<char>,
    pub shell_quit_key: Seq<char>,
    pub shell_quit_command: Seq<char>,
    pub shell_restart_key: Seq<char>,
    pub shell_restart_command: Seq<char>,
    pub zoom_in_mode_key: Seq<char>,
    pub zoom_in_mode_command: Seq<char>,
    pub zoom_out_mode_key: Seq<char>,
    pub zoom_out_mode_command: Seq<char>,
    pub cycle_strip_forward_key: Seq<char>,
    pub cycle_strip_forward_command: Seq<char>,
    pub cycle_strip_backward_key: Seq<char>,
    pub cycle_strip_backward_command: Seq<char>,
    pub cycle_cluster_forward_key: Seq<char>,
    pub cycle_cluster_forward_command: Seq<char>,
    pub cycle_cluster_backward_key: Seq<char>,
    pub cycle_cluster_backward_command: Seq<char>,
}

impl View for BindingConfig {
    type V = BindingConfigView;

    open spec fn view(&self) -> BindingConfigView {
        BindingConfigView {
            output: self.output@,
            launcher_toggle_key: self.launcher_toggle_key@,
            launcher_toggle_command: self.launcher_toggle_command@,
            screenshot_key: self.screenshot_key@,
            screenshot_command: self.screenshot_command@,
            volume_up_key: self.volume_up_key@,
            volume_up_command: self.volume_up_command@,
            volume_down_key: self.volume_down_key@,
            volume_down_command: self.volume_down_command@,
            volume_mute_key: self.volume_mute_key@,
            volume_mute_command: self.volume_mute_command@,
            brightness_up_key: self.brightness_up_key@,
            brightness_up_command: self.brightness_up_command@,
            brightness_down_key: self.brightness_down_key@,
            brightness_down_command: self.brightness_down_command@,
            shell_quit_key: self.shell_quit_key@,
            shell_quit_command: self.shell_quit_command@,
            shell_restart_key: self.shell_restart_key@,
            shell_restart_command: self.shell_restart_command@,
            zoom_in_mode_key: self.zoom_in_mode_key@,
            zoom_in_mode_command: self.zoom_in_mode_command@,
            zoom_out_mode_key: self.zoom_out_mode_key@,
            zoom_out_mode_command: self.zoom_out_mode_command@,
            cycle_strip_forward_key: self.cycle_strip_forward_key@,
            cycle_strip_forward_command: self.cycle_strip_forward_command@,
            cycle_strip_backward_key: self.cycle_strip_backward_key@,
            cycle_strip_backward_command: self.cycle_strip_backward_command@,
            cycle_cluster_forward_key: self.cycle_cluster_forward_key@,
            cycle_cluster_forward_command: self.cycle_cluster_forward_command@,
            cycle_cluster_backward_key: self.cycle_cluster_backward_key@,
            cycle_cluster_backward_command: self.cycle_cluster_backward_command@,
        }
    }
}

/// The shipped bindings, written to `dev/sway.bindings.generated`.
pub open spec fn default_bindings() -> BindingConfigView {
    BindingConfigView {
        output: "dev/sway.bindings.generated"@,
        launcher_toggle_key: "$mod+space"@,
        launcher_toggle_command: "swaymsg '[app_id=\"com.vibeshell.launcher\"] kill' || launcher"@,
        screenshot_key: "Print"@,
        screenshot_command: "grim -g \"$(slurp)\" - | wl-copy"@,
        volume_up_key: "XF86AudioRaiseVolume"@,
        volume_up_command: "wpctl set-volume @DEFAULT_AUDIO_SINK@ 5%+"@,
        volume_down_key: "XF86AudioLowerVolume"@,
        volume_down_command: "wpctl set-volume @DEFAULT_AUDIO_SINK@ 5%-"@,
        volume_mute_key: "XF86AudioMute"@,
        volume_mute_command: "wpctl set-mute @DEFAULT_AUDIO_SINK@ toggle"@,
        brightness_up_key: "XF86MonBrightnessUp"@,
        brightness_up_command: "brightnessctl set +10%"@,
        brightness_down_key: "XF86MonBrightnessDown"@,
        brightness_down_command: "brightnessctl set 10%-"@,
        shell_quit_key: "$mod+Shift+e"@,
        shell_quit_command: "swaymsg exit"@,
        shell_restart_key: "$mod+Shift+r"@,
        shell_restart_command: "swaymsg reload"@,
        zoom_in_mode_key: "$mod+equal"@,
        zoom_in_mode_command: "vibeshellctl ipc zoom-in-mode"@,
        zoom_out_mode_key: "$mod+minus"@,
        zoom_out_mode_command: "vibeshellctl ipc zoom-out-mode"@,
        cycle_strip_forward_key: "$mod+period"@,
        cycle_strip_forward_command: "vibeshellctl ipc cycle-strip-forward"@,
        cycle_strip_backward_key: "$mod+comma"@,
        cycle_strip_backward_command: "vibeshellctl ipc cycle-strip-backward"@,
        cycle_cluster_forward_key: "$mod+Tab"@,
        cycle_cluster_forward_command: "vibeshellctl ipc cycle-cluster --direction forward"@,
        cycle_cluster_backward_key: "$mod+Shift+Tab"@,
        cycle_cluster_backward_command: "vibeshellctl ipc cycle-cluster --direction backward"@,
    }
}

impl Default for BindingConfig {
    fn default() -> (r: Self)
        ensures
            r@ == default_bindings(),
    {
        BindingConfig {
            output: "dev/sway.bindings.generated".to_owned(),
            launcher_toggle_key: "$mod+space".to_owned(),
            launcher_toggle_command: "swaymsg '[app_id=\"com.vibeshell.launcher\"] kill' || launcher".to_owned(),
            screenshot_key: "Print".to_owned(),
            screenshot_command: "grim -g \"$(slurp)\" - | wl-copy".to_owned(),
            volume_up_key: "XF86AudioRaiseVolume".to_owned(),
            volume_up_command: "wpctl set-volume @DEFAULT_AUDIO_SINK@ 5%+".to_owned(),
            volume_down_key: "XF86AudioLowerVolume".to_owned(),
            volume_down_command: "wpctl set-volume @DEFAULT_AUDIO_SINK@ 5%-".to_owned(),
            volume_mute_key: "XF86AudioMute".to_owned(),
            volume_mute_command: "wpctl set-mute @DEFAULT_AUDIO_SINK@ toggle".to_owned(),
            brightness_up_key: "XF86MonBrightnessUp".to_owned(),
            brightness_up_command: "brightnessctl set +10%".to_owned(),
            brightness_down_key: "XF86MonBrightnessDown".to_owned(),
            brightness_down_command: "brightnessctl set 10%-".to_owned(),
            shell_quit_key: "$mod+Shift+e".to_owned(),
            shell_quit_command: "swaymsg exit".to_owned(),
            shell_restart_key: "$mod+Shift+r".to_owned(),
            shell_restart_command: "swaymsg reload".to_owned(),
            zoom_in_mode_key: "$mod+equal".to_owned(),
            zoom_in_mode_command: "vibeshellctl ipc zoom-in-mode".to_owned(),
            zoom_out_mode_key: "$mod+minus".to_owned(),
            zoom_out_mode_command: "vibeshellctl ipc zoom-out-mode".to_owned(),
            cycle_strip_forward_key: "$mod+period".to_owned(),
            cycle_strip_forward_command: "vibeshellctl ipc cycle-strip-forward".to_owned(),
            cycle_strip_backward_key: "$mod+comma".to_owned(),
            cycle_strip_backward_command: "vibeshellctl ipc cycle-strip-backward".to_owned(),
            cycle_cluster_forward_key: "$mod+Tab".to_owned(),
            cycle_cluster_forward_command: "vibeshellctl ipc cycle-cluster --direction forward".to_owned(),
            cycle_cluster_backward_key: "$mod+Shift+Tab".to_owned(),
            cycle_cluster_backward_command: "vibeshellctl ipc cycle-cluster --direction backward".to_owned(),
        }
    }
}

/// The configuration with the option `flag` set to `value`; `None` where
/// `flag` names no option.
pub open spec fn with_option(c: BindingConfigView, flag: Seq<char>, value: Seq<char>) -> Option<BindingConfigView> {
    if flag == "--output"@ {
        Some(BindingConfigView { output: value, ..c })
    } else if flag == "--launcher-toggle-key"@ {
        Some(BindingConfigView { launcher_toggle_key: value, ..c })
    } else if flag == "--launcher-toggle-command"@ {
        Some(BindingConfigView { launcher_toggle_command: value, ..c })
    } else if flag == "--screenshot-key"@ {
        Some(BindingConfigView { screenshot_key: value, ..c })
    } else if flag == "--screenshot-command"@ {
        Some(BindingConfigView { screenshot_command: value, ..c })
    } else if flag == "--volume-up-key"@ {
        Some(BindingConfigView { volume_up_key: value, ..c })
    } else if flag == "--volume-up-command"@ {
        Some(BindingConfigView { volume_up_command: value, ..c })
    } else if flag == "--volume-down-key"@ {
        Some(BindingConfigView { volume_down_key: value, ..c })
    } else if flag == "--volume-down-command"@ {
        Some(BindingConfigView { volume_down_command: value, ..c })
    } else if flag == "--volume-mute-key"@ {
        Some(BindingConfigView { volume_mute_key: value, ..c })
    } else if flag == "--volume-mute-command"@ {
        Some(BindingConfigView { volume_mute_command: value, ..c })
    } else if flag == "--brightness-up-key"@ {
        Some(BindingConfigView { brightness_up_key: value, ..c })
    } else if flag == "--brightness-up-command"@ {
        Some(BindingConfigView { brightness_up_command: value, ..c })
    } else if flag == "--brightness-down-key"@ {
        Some(BindingConfigView { brightness_down_key: value, ..c })
    } else if flag == "--brightness-down-command"@ {
        Some(BindingConfigView { brightness_down_command: value, ..c })
    } else if flag == "--shell-quit-key"@ {
        Some(BindingConfigView { shell_quit_key: value, ..c })
    } else if flag == "--shell-quit-command"@ {
        Some(BindingConfigView { shell_quit_command: value, ..c })
    } else if flag == "--shell-restart-key"@ {
        Some(BindingConfigView { shell_restart_key: value, ..c })
    } else if flag == "--shell-restart-command"@ {
        Some(BindingConfigView { shell_restart_command: value, ..c })
    } else if flag == "--zoom-in-mode-key"@ {
        Some(BindingConfigView { zoom_in_mode_key: value, ..c })
    } else if flag == "--zoom-in-mode-command"@ {
        Some(BindingConfigView { zoom_in_mode_command: value, ..c })
    } else if flag == "--zoom-out-mode-key"@ {
        Some(BindingConfigView { zoom_out_mode_key: value, ..c })
    } else if flag == "--zoom-out-mode-command"@ {
        Some(BindingConfigView { zoom_out_mode_command: value, ..c })
    } else if flag == "--cycle-strip-forward-key"@ {
        Some(BindingConfigView { cycle_strip_forward_key: value, ..c })
    } else if flag == "--cycle-strip-forward-command"@ {
        Some(BindingConfigView { cycle_strip_forward_command: value, ..c })
    } else if flag == "--cycle-strip-backward-key"@ {
        Some(BindingConfigView { cycle_strip_backward_key: value, ..c })
    } else if flag == "--cycle-strip-backward-command"@ {
        Some(BindingConfigView { cycle_strip_backward_command: value, ..c })
    } else if flag == "--cycle-cluster-forward-key"@ {
        Some(BindingConfigView { cycle_cluster_forward_key: value, ..c })
    } else if flag == "--cycle-cluster-forward-command"@ {
        Some(BindingConfigView { cycle_cluster_forward_command: value, ..c })
    } else if flag == "--cycle-cluster-backward-key"@ {
        Some(BindingConfigView { cycle_cluster_backward_key: value, ..c })
    } else if flag == "--cycle-cluster-backward-command"@ {
        Some(BindingConfigView { cycle_cluster_backward_command: value, ..c })
    } else {
        None
    }
}

fn is_flag(flag: &Vec<char>, name: &str) -> (r: bool)
    ensures
        r == (flag@ == name@),
{
    chars_eq(flag, &chars_of(name))
}

impl BindingConfig {
    /// Sets the option `flag` to `value`; false, with nothing changed,
    /// where `flag` names no option.
    pub fn set_option(&mut self, flag: &str, value: String) -> (r: bool)
        ensures
            r == with_option(old(self)@, flag@, value@) is Some,
            r ==> with_option(old(self)@, flag@, value@) == Some(final(self)@),
            !r ==> final(self)@ == old(self)@,
    {
        let f = chars_of(flag);
        if is_flag(&f, "--output") {
            self.output = value;
        } else if is_flag(&f, "--launcher-toggle-key") {
            self.launcher_toggle_key = value;
        } else if is_flag(&f, "--launcher-toggle-command") {
            self.launcher_toggle_command = value;
        } else if is_flag(&f, "--screenshot-key") {
            self.screenshot_key = value;
        } else if is_flag(&f, "--screenshot-command") {
            self.screenshot_command = value;
        } else if is_flag(&f, "--volume-up-key") {
            self.volume_up_key = value;
        } else if is_flag(&f, "--volume-up-command") {
            self.volume_up_command = value;
        } else if is_flag(&f, "--volume-down-key") {
            self.volume_down_key = value;
        } else if is_flag(&f, "--volume-down-command") {
            self.volume_down_command = value;
        } else if is_flag(&f, "--volume-mute-key") {
            self.volume_mute_key = value;
        } else if is_flag(&f, "--volume-mute-command") {
            self.volume_mute_command = value;
        } else if is_flag(&f, "--brightness-up-key") {
            self.brightness_up_key = value;
        } else if is_flag(&f, "--brightness-up-command") {
            self.brightness_up_command = value;
        } else if is_flag(&f, "--brightness-down-key") {
            self.brightness_down_key = value;
        } else if is_flag(&f, "--brightness-down-command") {
            self.brightness_down_command = value;
        } else if is_flag(&f, "--shell-quit-key") {
            self.shell_quit_key = value;
        } else if is_flag(&f, "--shell-quit-command") {
            self.shell_quit_command = value;
        } else if is_flag(&f, "--shell-restart-key") {
            self.shell_restart_key = value;
        } else if is_flag(&f, "--shell-restart-command") {
            self.shell_restart_command = value;
        } else if is_flag(&f, "--zoom-in-mode-key") {
            self.zoom_in_mode_key = value;
        } else if is_flag(&f, "--zoom-in-mode-command") {
            self.zoom_in_mode_command = value;
        } else if is_flag(&f, "--zoom-out-mode-key") {
            self.zoom_out_mode_key = value;
        } else if is_flag(&f, "--zoom-out-mode-command") {
            self.zoom_out_mode_command = value;
        } else if is_flag(&f, "--cycle-strip-forward-key") {
            self.cycle_strip_forward_key = value;
        } else if is_flag(&f, "--cycle-strip-forward-command") {
            self.cycle_strip_forward_command = value;
        } else if is_flag(&f, "--cycle-strip-backward-key") {
            self.cycle_strip_backward_key = value;
        } else if is_flag(&f, "--cycle-strip-backward-command") {
            self.cycle_strip_backward_command = value;
        } else if is_flag(&f, "--cycle-cluster-forward-key") {
            self.cycle_cluster_forward_key = value;
        } else if is_flag(&f, "--cycle-cluster-forward-command") {
            self.cycle_cluster_forward_command = value;
        } else if is_flag(&f, "--cycle-cluster-backward-key") {
            self.cycle_cluster_backward_key = value;
        } else if is_flag(&f, "--cycle-cluster-backward-command") {
            self.cycle_cluster_backward_command = value;
        } else {
            return false;
        }
        true
    }
}

/// The usage text.
pub open spec fn help_lines() -> Seq<Seq<char>> {
    seq![
        "Usage: cargo run -p sway --bin generate-bindings -- [OPTIONS]"@,
        ""@,
        "Options:"@,
        "  --output <path>"@,
        "  --launcher-toggle-key <key>"@,
        "  --launcher-toggle-command <command>"@,
        "  --screenshot-key <key>"@,
        "  --screenshot-command <command>"@,
        "  --volume-up-key <key>"@,
        "  --volume-up-command <command>"@,
        "  --volume-down-key <key>"@,
        "  --volume-down-command <command>"@,
        "  --volume-mute-key <key>"@,
        "  --volume-mute-command <command>"@,
        "  --brightness-up-key <key>"@,
        "  --brightness-up-command <command>"@,
        "  --brightness-down-key <key>"@,
        "  --brightness-down-command <command>"@,
        "  --shell-quit-key <key>"@,
        "  --shell-quit-command <command>"@,
        "  --shell-restart-key <key>"@,
        "  --shell-restart-command <command>"@,
        "  --zoom-in-mode-key <key>"@,
        "  --zoom-in-mode-command <command>"@,
        "  --zoom-out-mode-key <key>"@,
        "  --zoom-out-mode-command <command>"@,
        "  --cycle-strip-forward-key <key>"@,
        "  --cycle-strip-forward-command <command>"@,
        "  --cycle-strip-backward-key <key>"@,
        "  --cycle-strip-backward-command <command>"@,
        "  --cycle-cluster-forward-key <key>"@,
        "  --cycle-cluster-forward-command <command>"@,
        "  --cycle-cluster-backward-key <key>"@,
        "  --cycle-cluster-backward-command <command>"@,
    ]
}

pub open spec fn help_message() -> Seq<char> {
    join_with(help_lines(), "\n"@)
}

/// The usage text.
pub fn help_text() -> (r: String)
    ensures
        r@ == help_message(),
{
    let mut lines: Vec<String> = Vec::new();
    lines.push("Usage: cargo run -p sway --bin generate-bindings -- [OPTIONS]".to_owned());
    lines.push("".to_owned());
    lines.push("Options:".to_owned());
    lines.push("  --output <path>".to_owned());
    lines.push("  --launcher-toggle-key <key>".to_owned());
    lines.push("  --launcher-toggle-command <command>".to_owned());
    lines.push("  --screenshot-key <key>".to_owned());
    lines.push("  --screenshot-command <command>".to_owned());
    lines.push("  --volume-up-key <key>".to_owned());
    lines.push("  --volume-up-command <command>".to_owned());
    lines.push("  --volume-down-key <key>".to_owned());
    lines.push("  --volume-down-command <command>".to_owned());
    lines.push("  --volume-mute-key <key>".to_owned());
    lines.push("  --volume-mute-command <command>".to_owned());
    lines.push("  --brightness-up-key <key>".to_owned());
    lines.push("  --brightness-up-command <command>".to_owned());
    lines.push("  --brightness-down-key <key>".to_owned());
    lines.push("  --brightness-down-command <command>".to_owned());
    lines.push("  --shell-quit-key <key>".to_owned());
    lines.push("  --shell-quit-command <command>".to_owned());
    lines.push("  --shell-restart-key <key>".to_owned());
    lines.push("  --shell-restart-command <command>".to_owned());
    lines.push("  --zoom-in-mode-key <key>".to_owned());
    lines.push("  --zoom-in-mode-command <command>".to_owned());
    lines.push("  --zoom-out-mode-key <key>".to_owned());
    lines.push("  --zoom-out-mode-command <command>".to_owned());
    lines.push("  --cycle-strip-forward-key <key>".to_owned());
    lines.push("  --cycle-strip-forward-command <command>".to_owned());
    lines.push("  --cycle-strip-backward-key <key>".to_owned());
    lines.push("  --cycle-strip-backward-command <command>".to_owned());
    lines.push("  --cycle-cluster-forward-key <key>".to_owned());
    lines.push("  --cycle-cluster-forward-command <command>".to_owned());
    lines.push("  --cycle-cluster-backward-key <key>".to_owned());
    lines.push("  --cycle-cluster-backward-command <command>".to_owned());
    assert(string_seq(lines@) =~= help_lines());
    join_strings(&lines, "\n")
}

/// What the command line `args` (the program name left out) makes of the
/// defaults: each option is followed by its value; a missing value, an
/// unknown option and a request for help are errors, the latter with the
/// usage text.
pub open spec fn parse_options(c: BindingConfigView, args: Seq<Seq<char>>) -> Result<BindingConfigView, Seq<char>>
    decreases args.len(),
{
    if args.len() == 0 {
        Ok(c)
    } else if args.len() == 1 {
        Err("missing value for "@ + args[0])
    } else {
        match with_option(c, args[0], args[1]) {
            Some(next) => parse_options(next, args.skip(2)),
            None => if args[0] == "--help"@ || args[0] == "-h"@ {
                Err(help_message())
            } else {
                Err("unknown argument: "@ + args[0] + "\n\n"@ + help_message())
            },
        }
    }
}

/// The configuration the command line `args` asks for.
pub fn parse_args(args: &Vec<String>) -> (r: Result<BindingConfig, String>)
    ensures
        match r {
            Ok(c) => parse_options(default_bindings(), string_seq(args@)) == Ok::<BindingConfigView, Seq<char>>(c@),
            Err(e) => parse_options(default_bindings(), string_seq(args@)) == Err::<BindingConfigView, Seq<char>>(e@),
        },
{
    let ghost all = string_seq(args@);
    let mut config = BindingConfig::default();
    let mut i: usize = 0;
    while i < args.len()
        invariant
            i <= args@.len(),
            all == string_seq(args@),
            parse_options(default_bindings(), all) == parse_options(config@, all.skip(i as int)),
        decreases args.len() - i,
    {
        let ghost rest = all.skip(i as int);
        assert(rest[0] == args@[i as int]@);
        let flag = args[i].as_str();
        if i + 1 >= args.len() {
            let mut e = String::new();
            push_str(&mut e, "missing value for ");
            push_str(&mut e, flag);
            assert(rest.len() == 1);
            return Err(e);
        }
        assert(rest[1] == args@[i as int + 1]@);
        let value = args[i + 1].clone();
        let ghost before = config@;
        if !config.set_option(flag, value) {
            let f = chars_of(flag);
            if is_flag(&f, "--help") || is_flag(&f, "-h") {
                return Err(help_text());
            }
            let mut e = String::new();
            push_str(&mut e, "unknown argument: ");
            push_str(&mut e, flag);
            push_str(&mut e, "\n\n");
            let help = help_text();
            push_str(&mut e, help.as_str());
            assert(e@ =~= "unknown argument: "@ + rest[0] + "\n\n"@ + help_message());
            return Err(e);
        }
        assert(rest.skip(2) =~= all.skip(i as int + 2));
        i += 2;
    }
    assert(all.skip(i as int).len() == 0);
    Ok(config)
}

/// One line of the bindings file.
pub open spec fn bindsym_line(key: Seq<char>, command: Seq<char>) -> Seq<char> {
    "bindsym "@ + key + " exec "@ + command
}

fn bindsym(key: &String, command: &String) -> (r: String)
    ensures
        r@ == bindsym_line(key@, command@),
{
    let mut out = String::new();
    push_str(&mut out, "bindsym ");
    push_str(&mut out, key.as_str());
    push_str(&mut out, " exec ");
    push_str(&mut out, command.as_str());
    out
}

/// The lines of the bindings file: a header, then the bindings in groups
/// (launcher and screenshot, volume, brightness, canvas navigation,
/// session) with an empty line after each.
pub open spec fn rendered_lines(c: BindingConfigView) -> Seq<Seq<char>> {
    seq![
        "# This file is generated by `cargo run -p sway --bin generate-bindings -- ...`."@,
        "# Do not edit manually."@,
        ""@,
        bindsym_line(c.launcher_toggle_key, c.launcher_toggle_command),
        bindsym_line(c.screenshot_key, c.screenshot_command),
        ""@,
        bindsym_line(c.volume_up_key, c.volume_up_command),
        bindsym_line(c.volume_down_key, c.volume_down_command),
        bindsym_line(c.volume_mute_key, c.volume_mute_command),
        ""@,
        bindsym_line(c.brightness_up_key, c.brightness_up_command),
        bindsym_line(c.brightness_down_key, c.brightness_down_command),
        ""@,
        bindsym_line(c.zoom_in_mode_key, c.zoom_in_mode_command),
        bindsym_line(c.zoom_out_mode_key, c.zoom_out_mode_command),
        bindsym_line(c.cycle_strip_forward_key, c.cycle_strip_forward_command),
        bindsym_line(c.cycle_strip_backward_key, c.cycle_strip_backward_command),
        bindsym_line(c.cycle_cluster_forward_key, c.cycle_cluster_forward_command),
        bindsym_line(c.cycle_cluster_backward_key, c.cycle_cluster_backward_command),
        ""@,
        bindsym_line(c.shell_quit_key, c.shell_quit_command),
        bindsym_line(c.shell_restart_key, c.shell_restart_command),
        ""@,
    ]
}

/// The contents of the bindings file: its lines, each ended by a newline
/// but the last, which is empty.
pub open spec fn rendered(c: BindingConfigView) -> Seq<char> {
    join_with(rendered_lines(c), "\n"@)
}

/// The bindings file for `config`.
pub fn render(config: &BindingConfig) -> (r: String)
    ensures
        r@ == rendered(config@),
{
    let mut lines: Vec<String> = Vec::new();
    lines.push("# This file is generated by `cargo run -p sway --bin generate-bindings -- ...`.".to_owned());
    lines.push("# Do not edit manually.".to_owned());
    lines.push("".to_owned());
    lines.push(bindsym(&config.launcher_toggle_key, &config.launcher_toggle_command));
    lines.push(bindsym(&config.screenshot_key, &config.screenshot_command));
    lines.push("".to_owned());
    lines.push(bindsym(&config.volume_up_key, &config.volume_up_command));
    lines.push(bindsym(&config.volume_down_key, &config.volume_down_command));
    lines.push(bindsym(&config.volume_mute_key, &config.volume_mute_command));
    lines.push("".to_owned());
    lines.push(bindsym(&config.brightness_up_key, &config.brightness_up_command));
    lines.push(bindsym(&config.brightness_down_key, &config.brightness_down_command));
    lines.push("".to_owned());
    lines.push(bindsym(&config.zoom_in_mode_key, &config.zoom_in_mode_command));
    lines.push(bindsym(&config.zoom_out_mode_key, &config.zoom_out_mode_command));
    lines.push(bindsym(&config.cycle_strip_forward_key, &config.cycle_strip_forward_command));
    lines.push(bindsym(&config.cycle_strip_backward_key, &config.cycle_strip_backward_command));
    lines.push(bindsym(&config.cycle_cluster_forward_key, &config.cycle_cluster_forward_command));
    lines.push(bindsym(&config.cycle_cluster_backward_key, &config.cycle_cluster_backward_command));
    lines.push("".to_owned());
    lines.push(bindsym(&config.shell_quit_key, &config.shell_quit_command));
    lines.push(bindsym(&config.shell_restart_key, &config.shell_restart_command));
    lines.push("".to_owned());
    assert(string_seq(lines@) =~= rendered_lines(config@));
    join_strings(&lines, "\n")
}

/// Text `file` has a whole line that binds `key` to running `command`.
pub open spec fn binds_key_to(file: Seq<char>, key: Seq<char>, command: Seq<char>) -> bool {
    has_substring(file, "\n"@ + "bindsym "@ + key + " exec "@ + command + "\n"@)
}

proof fn lemma_rendered_line(c: BindingConfigView, i: int)
    requires
        1 <= i,
        i + 1 < rendered_lines(c).len(),
    ensures
        has_substring(rendered(c), "\n"@ + rendered_lines(c)[i] + "\n"@),
{
    lemma_join_with_inner(rendered_lines(c), "\n"@, i);
}

/// Each key binding of the generated file pairs the configured key of a
/// binding with that same binding's configured command, on a line of its
/// own.
pub proof fn law_rendered_pairs_keys_with_commands(c: BindingConfigView)
    ensures
        binds_key_to(rendered(c), c.launcher_toggle_key, c.launcher_toggle_command),
        binds_key_to(rendered(c), c.screenshot_key, c.screenshot_command),
        binds_key_to(rendered(c), c.volume_up_key, c.volume_up_command),
        binds_key_to(rendered(c), c.volume_down_key, c.volume_down_command),
        binds_key_to(rendered(c), c.volume_mute_key, c.volume_mute_command),
        binds_key_to(rendered(c), c.brightness_up_key, c.brightness_up_command),
        binds_key_to(rendered(c), c.brightness_down_key, c.brightness_down_command),
        binds_key_to(rendered(c), c.zoom_in_mode_key, c.zoom_in_mode_command),
        binds_key_to(rendered(c), c.zoom_out_mode_key, c.zoom_out_mode_command),
        binds_key_to(rendered(c), c.cycle_strip_forward_key, c.cycle_strip_forward_command),
        binds_key_to(rendered(c), c.cycle_strip_backward_key, c.cycle_strip_backward_command),
        binds_key_to(rendered(c), c.cycle_cluster_forward_key, c.cycle_cluster_forward_command),
        binds_key_to(rendered(c), c.cycle_cluster_backward_key, c.cycle_cluster_backward_command),
        binds_key_to(rendered(c), c.shell_quit_key, c.shell_quit_command),
        binds_key_to(rendered(c), c.shell_restart_key, c.shell_restart_command),
{
    lemma_rendered_line(c, 3);
    lemma_rendered_line(c, 4);
    lemma_rendered_line(c, 6);
    lemma_rendered_line(c, 7);
    lemma_rendered_line(c, 8);
    lemma_rendered_line(c, 10);
    lemma_rendered_line(c, 11);
    lemma_rendered_line(c, 13);
    lemma_rendered_line(c, 14);
    lemma_rendered_line(c, 15);
    lemma_rendered_line(c, 16);
    lemma_rendered_line(c, 17);
    lemma_rendered_line(c, 18);
    lemma_rendered_line(c, 20);
    lemma_rendered_line(c, 21);
    assert forall|key: Seq<char>, command: Seq<char>|
        has_substring(rendered(c), "\n"@ + bindsym_line(key, command) + "\n"@) implies binds_key_to(
        rendered(c),
        key,
        command,
    ) by {
        assert("\n"@ + bindsym_line(key, command) + "\n"@ =~= "\n"@ + "bindsym "@ + key + " exec "@ + command
            + "\n"@);
    }
}

} // verus!
