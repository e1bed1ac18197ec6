//! User configuration: the panel, launcher and notification daemon settings
//! with their defaults, and the canvas assignment hints.

use vstd::prelude::*;

verus! {

/// The version written into a fresh configuration.
pub const DEFAULT_CONFIG_VERSION: u32 = 1;

#[derive(Debug, Clone)]
pub struct PanelConfig {
    pub height: i32,
    pub margin_start: i32,
    pub margin_end: i32,
    pub clock_format: String,
    pub status_poll_interval_ms: u64,
    pub audio_toggle_command: String,
    pub audio_mixer_command: Option<String>,
    pub network_settings_command: String,
    pub power_menu_command: String,
}

/// The shipped panel settings.
pub open spec fn is_default_panel(r: PanelConfig) -> bool {
    &&& r.height == 32
    &&& r.margin_start == 12
    &&& r.margin_end == 12
    &&& r.clock_format@ == "%H:%M"@
    &&& r.status_poll_interval_ms == 5000
    &&& r.audio_toggle_command@ == "wpctl set-mute @DEFAULT_AUDIO_SINK@ toggle"@
    &&& r.audio_mixer_command is None
    &&& r.network_settings_command@ == "nm-connection-editor"@
    &&& r.power_menu_command@ == "wlogout"@
}

impl Default for PanelConfig {
    fn default() -> (r: Self)
        ensures
            is_default_panel(r),
    {
        PanelConfig {
            height: 32,
            margin_start: 12,
            margin_end: 12,
            clock_format: "%H:%M".to_owned(),
            status_poll_interval_ms: 5_000,
            audio_toggle_command: "wpctl set-mute @DEFAULT_AUDIO_SINK@ toggle".to_owned(),
            audio_mixer_command: None,
            network_settings_command: "nm-connection-editor".to_owned(),
            power_menu_command: "wlogout".to_owned(),
        }
    }
}

#[derive(Debug, Clone)]
pub struct LauncherConfig {
    pub window_width: i32,
    pub window_height: i32,
    pub max_results: usize,
    pub terminal_command: String,
}

/// The shipped launcher settings.
pub open spec fn is_default_launcher(r: LauncherConfig) -> bool {
    &&& r.window_width == 640
    &&& r.window_height == 420
    &&& r.max_results == 10
    &&& r.terminal_command@ == "foot"@
}

impl Default for LauncherConfig {
    fn default() -> (r: Self)
        ensures
            is_default_launcher(r),
    {
        LauncherConfig {
            window_width: 640,
            window_height: 420,
            max_results: 10,
            terminal_command: "foot".to_owned(),
        }
    }
}

#[derive(Debug, Clone)]
pub struct NotifdConfig {
    pub width: i32,
    pub default_timeout_ms: u64,
    pub margin_top: i32,
    pub margin_right: i32,
}

/// The shipped notification daemon settings.
pub open spec fn is_default_notifd(r: NotifdConfig) -> bool {
    &&& r.width == 360
    &&& r.default_timeout_ms == 5000
    &&& r.margin_top == 12
    &&& r.margin_right == 12
}

impl Default for NotifdConfig {
    fn default() -> (r: Self)
        ensures
            is_default_notifd(r),
    {
        NotifdConfig { width: 360, default_timeout_ms: 5_000, margin_top: 12, margin_right: 12 }
    }
}

/// The whole configuration file.
#[derive(Debug, Clone)]
pub struct Config {
    pub version: u32,
    pub panel: PanelConfig,
    pub launcher: LauncherConfig,
    pub notifd: NotifdConfig,
}

impl Default for Config {
    fn default() -> (r: Self)
        ensures
            r.version == DEFAULT_CONFIG_VERSION,
            is_default_panel(r.panel),
            is_default_launcher(r.launcher),
            is_default_notifd(r.notifd),
    {
        Config {
            version: DEFAULT_CONFIG_VERSION,
            panel: PanelConfig::default(),
            launcher: LauncherConfig::default(),
            notifd: NotifdConfig::default(),
        }
    }
}

/// Sends windows matching every given criterion to the cluster named
/// `cluster` (names compared without ASCII case).
#[derive(Debug, Clone, Default)]
pub struct AssignmentHint {
    pub app_id: Option<String>,
    pub class: Option<String>,
    pub title_contains: Option<String>,
    pub cluster: String,
}

/// Mathematical view of an assignment hint.
pub struct HintView {
    pub app_id: Option<Seq<char>>,
    pub class: Option<Seq<char>>,
    pub title_contains: Option<Seq<char>>,
    pub cluster: Seq<char>,
}

pub open spec fn opt_chars(o: Option<String>) -> Option<Seq<char>> {
    match o {
        Some(s) => Some(s@),
        None => None,
    }
}

impl View for AssignmentHint {
    type V = HintView;

    open spec fn view(&self) -> HintView {
        HintView {
            app_id: opt_chars(self.app_id),
            class: opt_chars(self.class),
            title_contains: opt_chars(self.title_contains),
            cluster: self.cluster@,
        }
    }
}

/// Where the context strip is shown.
#[derive(Debug, Clone, Copy, PartialEq, Eq, Structural, Default)]
pub enum StripPlacement {
    Left,
    #[default]
    Bottom,
    Right,
    Hidden,
}

} // verus!
