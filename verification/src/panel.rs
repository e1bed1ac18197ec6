//! What the panel shows: the workspace strip and the focused window's title,
//! projected from the daemon's canvas or read from sway, and the audio,
//! network and battery labels.

use vstd::prelude::*;

use crate::contracts::{CanvasState, CanvasView, ClusterView, Window, WindowId};
use crate::seq_util::{lemma_insert_by_at, lemma_sort_by, sort_by, strict_weak};
use crate::text::{
    chars_before, chars_less, chars_of, decimal, join_with, lemma_chars_before_order, parse_i32, parse_i32_spec, push_decimal, push_str,
    string_seq, to_lowercase, trim, trim_ws, unicode_lower,
};

verus! {

broadcast use vstd::seq_lib::group_seq_properties;

// ---------------------------------------------------------------------------
// The workspace strip.
// ---------------------------------------------------------------------------

/// One entry of the workspace strip.
#[derive(Debug, Clone, PartialEq, Eq)]
pub struct WorkspaceState {
    /// Stable cluster id (the sway workspace id when read from sway).
    pub id: i64,
    /// The workspace number where its name is one, otherwise `None`.
    pub num: Option<i32>,
    pub name: String,
    pub output: String,
    pub focused: bool,
    pub visible: bool,
    pub urgent: bool,
}

/// Mathematical view of a workspace entry.
pub struct WorkspaceView {
    pub id: i64,
    pub num: Option<i32>,
    pub name: Seq<char>,
    pub output: Seq<char>,
    pub focused: bool,
    pub visible: bool,
    pub urgent: bool,
}

impl View for WorkspaceState {
    type V = WorkspaceView;

    open spec fn view(&self) -> WorkspaceView {
        WorkspaceView {
            id: self.id,
            num: self.num,
            name: self.name@,
            output: self.output@,
            focused: self.focused,
            visible: self.visible,
            urgent: self.urgent,
        }
    }
}

pub open spec fn workspace_views(v: Seq<WorkspaceState>) -> Seq<WorkspaceView> {
    v.map_values(|w: WorkspaceState| w@)
}

/// What the panel renders.
#[derive(Debug, Clone, PartialEq, Eq)]
pub struct PanelState {
    pub workspaces: Vec<WorkspaceState>,
    pub focused_title: Option<String>,
}

/// A message from a panel state source.
#[derive(Debug, Clone, PartialEq, Eq)]
pub enum PanelUpdate {
    Snapshot(PanelState),
}

/// A change reported by sway's event stream.
#[derive(Debug, Clone, Copy, PartialEq, Eq, Structural)]
pub enum SwaySignal {
    WorkspaceOrWindow,
}

/// The active cluster: the first enabled one.
pub open spec fn active_cluster<P>(clusters: Seq<ClusterView<P>>) -> Option<ClusterView<P>>
    decreases clusters.len(),
{
    if clusters.len() == 0 {
        None
    } else if clusters[0].enabled {
        Some(clusters[0])
    } else {
        active_cluster(clusters.drop_first())
    }
}

/// The first window of `windows` with id `id`.
pub open spec fn window_with_id(windows: Seq<Window>, id: WindowId) -> Option<Window>
    decreases windows.len(),
{
    if windows.len() == 0 {
        None
    } else if windows[0].id == id {
        Some(windows[0])
    } else {
        window_with_id(windows.drop_first(), id)
    }
}

/// The title the panel shows for a canvas: that of the window the active
/// cluster last focused, where it is not empty.
pub open spec fn panel_title<P>(c: CanvasView<P>) -> Option<Seq<char>> {
    match active_cluster(c.clusters) {
        Some(cluster) => match cluster.last_focus {
            Some(id) => match window_with_id(c.windows, id) {
                Some(w) => if w.title@.len() > 0 {
                    Some(w.title@)
                } else {
                    None
                },
                None => None,
            },
            None => None,
        },
        None => None,
    }
}

/// The strip entry of a cluster: numbered where its name reads as a
/// positive number, shown (and focused) where enabled, never urgent.
pub open spec fn cluster_workspace<P>(c: ClusterView<P>, output: Seq<char>) -> WorkspaceView {
    WorkspaceView {
        id: c.id as i64,
        num: match parse_i32_spec(c.name) {
            Some(n) => if n > 0 {
                Some(n)
            } else {
                None
            },
            None => None,
        },
        name: c.name,
        output: output,
        focused: c.enabled,
        visible: c.enabled,
        urgent: false,
    }
}

/// A cluster named by a positive number (written in decimal) shows that
/// number in the strip.
pub proof fn law_numbered_cluster_shows_its_number<P>(c: ClusterView<P>, output: Seq<char>, n: nat)
    requires
        0 < n <= i32::MAX,
        c.name == decimal(n),
    ensures
        cluster_workspace(c, output).num == Some(n as i32),
{
    crate::text::law_parse_i32_of_decimal(n);
}

fn active_cluster_index<P>(canvas: &CanvasState<P>) -> (r: Option<usize>)
    ensures
        match r {
            Some(k) => k < canvas@.clusters.len() && active_cluster(canvas@.clusters) == Some(
                canvas@.clusters[k as int],
            ),
            None => active_cluster(canvas@.clusters) is None,
        },
{
    let ghost cs = canvas@.clusters;
    let mut k: usize = 0;
    while k < canvas.clusters.len()
        invariant
            cs == canvas@.clusters,
            k <= cs.len(),
            active_cluster(cs) == active_cluster(cs.skip(k as int)),
        decreases canvas.clusters.len() - k,
    {
        let ghost rest = cs.skip(k as int);
        assert(rest[0] == cs[k as int]);
        assert(cs[k as int] == canvas.clusters@[k as int]@);
        if canvas.clusters[k].enabled {
            return Some(k);
        }
        assert(rest.drop_first() =~= cs.skip(k as int + 1));
        k += 1;
    }
    assert(cs.skip(k as int).len() == 0);
    None
}

fn window_index<P>(canvas: &CanvasState<P>, id: WindowId) -> (r: Option<usize>)
    ensures
        match r {
            Some(i) => i < canvas@.windows.len() && window_with_id(canvas@.windows, id) == Some(
                canvas@.windows[i as int],
            ),
            None => window_with_id(canvas@.windows, id) is None,
        },
{
    let ghost ws = canvas@.windows;
    let mut i: usize = 0;
    while i < canvas.windows.len()
        invariant
            ws == canvas@.windows,
            i <= ws.len(),
            window_with_id(ws, id) == window_with_id(ws.skip(i as int), id),
        decreases canvas.windows.len() - i,
    {
        let ghost rest = ws.skip(i as int);
        assert(rest[0] == ws[i as int]);
        if canvas.windows[i].id == id {
            return Some(i);
        }
        assert(rest.drop_first() =~= ws.skip(i as int + 1));
        i += 1;
    }
    assert(ws.skip(i as int).len() == 0);
    None
}

/// Projects the daemon's canvas onto the panel's state; `output` names the
/// output every workspace is shown on.
pub fn canvas_to_panel_state<P>(canvas: &CanvasState<P>, output: &str) -> (r: PanelState)
    ensures
        workspace_views(r.workspaces@) == canvas@.clusters.map_values(
            |c: ClusterView<P>| cluster_workspace(c, output@),
        ),
        match r.focused_title {
            Some(t) => panel_title(canvas@) == Some(t@),
            None => panel_title(canvas@) is None,
        },
{
    let ghost cv = canvas@;
    let focused = match active_cluster_index(canvas) {
        Some(k) => canvas.clusters[k].last_focus,
        None => None,
    };
    let title = match focused {
        Some(id) => match window_index(canvas, id) {
            Some(i) => {
                if canvas.windows[i].title.as_str().unicode_len() > 0 {
                    Some(canvas.windows[i].title.clone())
                } else {
                    None
                }
            },
            None => None,
        },
        None => None,
    };
    let ghost expected = cv.clusters.map_values(|c: ClusterView<P>| cluster_workspace(c, output@));
    let mut workspaces: Vec<WorkspaceState> = Vec::new();
    let mut k: usize = 0;
    while k < canvas.clusters.len()
        invariant
            cv == canvas@,
            k <= cv.clusters.len(),
            expected == cv.clusters.map_values(|c: ClusterView<P>| cluster_workspace(c, output@)),
            workspace_views(workspaces@) == expected.take(k as int),
        decreases canvas.clusters.len() - k,
    {
        let c = &canvas.clusters[k];
        assert(cv.clusters[k as int] == c@);
        let num = match parse_i32(c.name.as_str()) {
            Some(n) => if n > 0 {
                Some(n)
            } else {
                None
            },
            None => None,
        };
        let ws = WorkspaceState {
            id: #[verifier::truncate] (c.id as i64),
            num,
            name: c.name.clone(),
            output: output.to_owned(),
            focused: c.enabled,
            visible: c.enabled,
            urgent: false,
        };
        let ghost before = workspace_views(workspaces@);
        workspaces.push(ws);
        assert(workspace_views(workspaces@) =~= before.push(expected[k as int]));
        assert(expected.take(k as int + 1) =~= expected.take(k as int).push(expected[k as int]));
        k += 1;
    }
    assert(expected.take(k as int) =~= expected);
    PanelState { workspaces, focused_title: title }
}

/// A node of the window manager's layout tree, as far as the panel reads
/// it: whether it has focus, its name, and its tiled then floating
/// children.
#[derive(Debug)]
pub struct TitleNode {
    pub focused: bool,
    pub name: Option<String>,
    pub children: Vec<TitleNode>,
}

/// The title a node itself offers: its trimmed name, where it is focused
/// and the name is not blank.
pub open spec fn own_title(n: TitleNode) -> Option<Seq<char>> {
    if n.focused {
        match n.name {
            Some(name) => if trim_ws(name@).len() > 0 {
                Some(trim_ws(name@))
            } else {
                None
            },
            None => None,
        }
    } else {
        None
    }
}

/// The focused title in the tree under `n`, searching depth first: a node
/// before its children, the children in order.
pub open spec fn focused_title(n: TitleNode) -> Option<Seq<char>>
    decreases n, 0int,
{
    match own_title(n) {
        Some(t) => Some(t),
        None => first_title_from(n.children@, 0),
    }
}

/// The first focused title among `nodes[i..]` and their subtrees.
pub open spec fn first_title_from(nodes: Seq<TitleNode>, i: int) -> Option<Seq<char>>
    decreases nodes, nodes.len() - i,
{
    if i < 0 || i >= nodes.len() {
        None
    } else {
        match focused_title(nodes[i]) {
            Some(t) => Some(t),
            None => first_title_from(nodes, i + 1),
        }
    }
}

/// The focused window's title: the trimmed name of the first focused node
/// with a nonblank name, depth first.
pub fn find_focused_title(node: &TitleNode) -> (r: Option<String>)
    ensures
        match r {
            Some(t) => focused_title(*node) == Some(t@),
            None => focused_title(*node) is None,
        },
    decreases node,
{
    if node.focused {
        match &node.name {
            Some(name) => {
                let trimmed = trim(name.as_str());
                if trimmed.unicode_len() > 0 {
                    return Some(trimmed);
                }
            },
            None => {},
        }
    }
    let mut i: usize = 0;
    while i < node.children.len()
        invariant
            i <= node.children@.len(),
            own_title(*node) is None,
            first_title_from(node.children@, 0) == first_title_from(node.children@, i as int),
        decreases node.children.len() - i,
    {
        proof {
            assert(decreases_to!(*node => node.children@[i as int]));
        }
        match find_focused_title(&node.children[i]) {
            Some(t) => return Some(t),
            None => {},
        }
        i += 1;
    }
    None
}

/// Where sway reports a workspace number: none when negative.
pub fn sway_workspace_num(num: i32) -> (r: Option<i32>)
    ensures
        r == (if num >= 0 {
            Some(num)
        } else {
            None
        }),
{
    if num >= 0 {
        Some(num)
    } else {
        None
    }
}

/// The sort key of a workspace read from sway: its number (unnumbered
/// last), then its name.
pub open spec fn by_number_then_name() -> spec_fn(WorkspaceView, WorkspaceView) -> bool {
    |a: WorkspaceView, b: WorkspaceView|
        number_key(a) < number_key(b) || (number_key(a) == number_key(b) && chars_before(a.name, b.name))
}

pub open spec fn number_key(w: WorkspaceView) -> i32 {
    match w.num {
        Some(n) => n,
        None => i32::MAX,
    }
}

fn workspace_before(a: &WorkspaceState, b: &WorkspaceState) -> (r: bool)
    ensures
        r == (by_number_then_name())(a@, b@),
{
    let ka = match a.num {
        Some(n) => n,
        None => i32::MAX,
    };
    let kb = match b.num {
        Some(n) => n,
        None => i32::MAX,
    };
    ka < kb || (ka == kb && chars_less(&chars_of(a.name.as_str()), &chars_of(b.name.as_str())))
}

/// Sorts workspaces by number, unnumbered last, then by name; ties keep
/// their order.
pub fn sort_workspaces(workspaces: Vec<WorkspaceState>) -> (r: Vec<WorkspaceState>)
    ensures
        workspace_views(r@) == sort_by(workspace_views(workspaces@), by_number_then_name()),
{
    let ghost orig = workspace_views(workspaces@);
    let mut rest = workspaces;
    let mut r: Vec<WorkspaceState> = Vec::new();
    let mut i: usize = 0;
    let n = rest.len();
    while rest.len() > 0
        invariant
            n == orig.len(),
            i + rest@.len() == n,
            workspace_views(rest@) == orig.skip(i as int),
            workspace_views(r@) == sort_by(orig.take(i as int), by_number_then_name()),
        decreases rest.len(),
    {
        let x = rest.remove(0);
        assert(x@ == orig[i as int]);
        let ghost xs = orig.take(i as int + 1);
        assert(xs.drop_last() =~= orig.take(i as int));
        assert(xs.last() == x@);
        let mut pos: usize = r.len();
        while pos > 0 && workspace_before(&x, &r[pos - 1])
            invariant
                pos <= r@.len(),
                forall|k: int|
                    pos <= k < r@.len() ==> (by_number_then_name())(x@, #[trigger] workspace_views(r@)[k]),
            decreases pos,
        {
            assert(workspace_views(r@)[pos - 1] == r@[pos - 1]@);
            pos -= 1;
        }
        proof {
            if pos > 0 {
                assert(workspace_views(r@)[pos - 1] == r@[pos - 1]@);
            }
            lemma_insert_by_at(workspace_views(r@), x@, by_number_then_name(), pos as int);
        }
        let ghost before = workspace_views(r@);
        r.insert(pos, x);
        assert(workspace_views(r@) =~= before.take(pos as int) + seq![x@] + before.skip(pos as int));
        i += 1;
        assert(workspace_views(rest@) =~= orig.skip(i as int));
    }
    assert(orig.take(i as int) =~= orig);
    r
}

/// The label of one strip entry: a dot for focused, visible or hidden,
/// the number where positive (else the name), and `!` when urgent.
pub open spec fn workspace_label(w: WorkspaceView) -> Seq<char> {
    let status = if w.focused {
        '●'
    } else if w.visible {
        '◉'
    } else {
        '○'
    };
    let shown = match w.num {
        Some(n) => if n > 0 {
            decimal(n as nat)
        } else {
            w.name
        },
        None => w.name,
    };
    seq![status] + shown + (if w.urgent {
        seq!['!']
    } else {
        Seq::empty()
    })
}

/// The whole strip: the labels with a space between each two, or a
/// notice when there are no workspaces.
pub open spec fn strip_text(ws: Seq<WorkspaceView>) -> Seq<char> {
    if ws.len() == 0 {
        "no workspaces"@
    } else {
        join_with(ws.map_values(|w: WorkspaceView| workspace_label(w)), seq![' '])
    }
}

fn push_workspace_label(out: &mut String, w: &WorkspaceState)
    ensures
        final(out)@ == old(out)@ + workspace_label(w@),
{
    let ghost start = out@;
    let status = if w.focused {
        '●'
    } else if w.visible {
        '◉'
    } else {
        '○'
    };
    crate::text::push_char(out, status);
    match w.num {
        Some(n) => {
            if n > 0 {
                push_decimal(out, n as u64);
            } else {
                push_str(out, w.name.as_str());
            }
        },
        None => push_str(out, w.name.as_str()),
    }
    if w.urgent {
        crate::text::push_char(out, '!');
    }
    assert(out@ =~= start + workspace_label(w@));
}

/// The text of the workspace strip.
pub fn format_workspaces(workspaces: &[WorkspaceState]) -> (r: String)
    ensures
        r@ == strip_text(workspaces@.map_values(|w: WorkspaceState| w@)),
{
    let ghost ws = workspaces@.map_values(|w: WorkspaceState| w@);
    if workspaces.len() == 0 {
        return "no workspaces".to_owned();
    }
    let ghost labels = ws.map_values(|w: WorkspaceView| workspace_label(w));
    let mut out = String::new();
    let mut i: usize = 0;
    while i < workspaces.len()
        invariant
            i <= workspaces@.len(),
            ws == workspaces@.map_values(|w: WorkspaceState| w@),
            labels == ws.map_values(|w: WorkspaceView| workspace_label(w)),
            out@ == join_with(labels.take(i as int), seq![' ']),
        decreases workspaces.len() - i,
    {
        let ghost before = out@;
        assert(labels.take(i as int + 1).drop_last() =~= labels.take(i as int));
        assert(labels.take(i as int + 1).last() == workspace_label(workspaces@[i as int]@));
        if i > 0 {
            crate::text::push_char(&mut out, ' ');
        }
        push_workspace_label(&mut out, &workspaces[i]);
        if i == 0 {
            assert(out@ =~= join_with(labels.take(1), seq![' ']));
        } else {
            assert(out@ =~= before + seq![' '] + workspace_label(workspaces@[i as int]@));
        }
        i += 1;
    }
    assert(labels.take(workspaces@.len() as int) =~= labels);
    out
}

// ---------------------------------------------------------------------------
// Status labels.
// ---------------------------------------------------------------------------

/// The three status labels of the panel.
#[derive(Debug, Clone)]
pub struct PanelStatus {
    pub audio: String,
    pub network: String,
    pub battery: String,
}

impl Default for PanelStatus {
    fn default() -> (r: Self)
        ensures
            r.audio@ == "audio N/A"@,
            r.network@ == "network N/A"@,
            r.battery@ == "battery N/A"@,
    {
        PanelStatus {
            audio: "audio N/A".to_owned(),
            network: "network N/A".to_owned(),
            battery: "battery N/A".to_owned(),
        }
    }
}

/// The default sink's volume and mute state.
#[derive(Debug, Clone)]
pub struct AudioStatus {
    pub volume_percent: u8,
    pub muted: bool,
}

/// Reads the default sink's state (through `wpctl`).
pub struct AudioProvider;

/// Which way the battery's charge is going.
#[derive(Debug, Clone, Copy, PartialEq, Eq, Structural)]
pub enum BatteryTrend {
    Charging,
    Discharging,
    Full,
    Unknown,
}

/// The first battery's charge and trend.
#[derive(Debug, Clone)]
pub struct BatteryStatus {
    pub percent: u8,
    pub trend: BatteryTrend,
}

/// Reads the first battery under the power-supply class.
pub struct BatteryProvider;

/// The primary network connection.
#[derive(Debug, Clone)]
pub struct NetworkStatus {
    pub connected: bool,
    pub connection_type: String,
}

pub open spec fn audio_icon_of(muted: bool) -> Seq<char> {
    if muted {
        "🔇"@
    } else {
        "🔊"@
    }
}

/// The speaker icon, crossed out when muted.
pub fn audio_icon(muted: bool) -> (r: &'static str)
    ensures
        r@ == audio_icon_of(muted),
{
    if muted {
        "🔇"
    } else {
        "🔊"
    }
}

/// The audio label: `<icon> muted`, or `<icon> <volume>%`.
pub open spec fn audio_label(s: AudioStatus) -> Seq<char> {
    if s.muted {
        audio_icon_of(true) + " muted"@
    } else {
        audio_icon_of(false) + " "@ + decimal(s.volume_percent as nat) + "%"@
    }
}

pub fn format_audio(status: AudioStatus) -> (r: String)
    ensures
        r@ == audio_label(status),
{
    let mut out = String::new();
    if status.muted {
        push_str(&mut out, audio_icon(true));
        push_str(&mut out, " muted");
        assert(out@ =~= audio_label(status));
        return out;
    }
    push_str(&mut out, audio_icon(false));
    push_str(&mut out, " ");
    push_decimal(&mut out, status.volume_percent as u64);
    push_str(&mut out, "%");
    assert(out@ =~= audio_label(status));
    out
}

/// The network label: the connection's type when connected.
pub open spec fn network_label(s: NetworkStatus) -> Seq<char> {
    if s.connected {
        "📶 connected ("@ + s.connection_type@ + ")"@
    } else {
        "📶 disconnected"@
    }
}

pub fn format_network(status: NetworkStatus) -> (r: String)
    ensures
        r@ == network_label(status),
{
    if status.connected {
        let mut out = String::new();
        push_str(&mut out, "📶 connected (");
        push_str(&mut out, status.connection_type.as_str());
        push_str(&mut out, ")");
        assert(out@ =~= network_label(status));
        out
    } else {
        "📶 disconnected".to_owned()
    }
}

pub open spec fn battery_icon_of(t: BatteryTrend) -> Seq<char> {
    match t {
        BatteryTrend::Charging => "⚡"@,
        _ => "🔋"@,
    }
}

/// The battery label: a bolt while charging, else a battery, and the
/// charge in percent.
pub open spec fn battery_label(s: BatteryStatus) -> Seq<char> {
    battery_icon_of(s.trend) + " "@ + decimal(s.percent as nat) + "%"@
}

pub fn format_battery(status: BatteryStatus) -> (r: String)
    ensures
        r@ == battery_label(status),
{
    let icon = match status.trend {
        BatteryTrend::Charging => "⚡",
        BatteryTrend::Discharging => "🔋",
        BatteryTrend::Full => "🔋",
        BatteryTrend::Unknown => "🔋",
    };
    let mut out = String::new();
    push_str(&mut out, icon);
    push_str(&mut out, " ");
    push_decimal(&mut out, status.percent as u64);
    push_str(&mut out, "%");
    assert(out@ =~= battery_label(status));
    out
}

/// The trend a battery's status file names, given in lowercase.
pub open spec fn trend_named(lower: Seq<char>) -> BatteryTrend {
    if lower == "charging"@ {
        BatteryTrend::Charging
    } else if lower == "discharging"@ {
        BatteryTrend::Discharging
    } else if lower == "full"@ {
        BatteryTrend::Full
    } else {
        BatteryTrend::Unknown
    }
}

fn same_text(a: &str, b: &str) -> (r: bool)
    ensures
        r == (a@ == b@),
{
    crate::text::chars_eq(&chars_of(a), &chars_of(b))
}

/// The trend for a status word already trimmed and lowered.
pub fn trend_from_lowered(lower: &str) -> (r: BatteryTrend)
    ensures
        r == trend_named(lower@),
{
    if same_text(lower, "charging") {
        BatteryTrend::Charging
    } else if same_text(lower, "discharging") {
        BatteryTrend::Discharging
    } else if same_text(lower, "full") {
        BatteryTrend::Full
    } else {
        BatteryTrend::Unknown
    }
}

/// The trend a battery's status file names, ignoring case and the
/// whitespace around it.
pub fn parse_status(raw: &str) -> (r: BatteryTrend)
    ensures
        r == trend_named(unicode_lower(trim_ws(raw@))),
{
    let lower = to_lowercase(trim(raw).as_str());
    trend_from_lowered(lower.as_str())
}

/// The short label of a NetworkManager connection type.
pub open spec fn friendly_type_of(nm_type: Seq<char>) -> Seq<char> {
    if nm_type == "802-11-wireless"@ {
        "wifi"@
    } else if nm_type == "802-3-ethernet"@ {
        "ethernet"@
    } else {
        nm_type
    }
}

/// Maps NetworkManager's wire-format connection types to short labels.
pub fn friendly_type(nm_type: &str) -> (r: String)
    ensures
        r@ == friendly_type_of(nm_type@),
{
    if same_text(nm_type, "802-11-wireless") {
        "wifi".to_owned()
    } else if same_text(nm_type, "802-3-ethernet") {
        "ethernet".to_owned()
    } else {
        nm_type.to_owned()
    }
}

/// The panel's labels for what the three providers read, with a
/// not-available label for each that read nothing.
pub fn panel_status_from(
    audio: Option<AudioStatus>,
    network: Option<NetworkStatus>,
    battery: Option<BatteryStatus>,
) -> (r: PanelStatus)
    ensures
        r.audio@ == match audio {
            Some(s) => audio_label(s),
            None => "audio N/A"@,
        },
        r.network@ == match network {
            Some(s) => network_label(s),
            None => "network N/A"@,
        },
        r.battery@ == match battery {
            Some(s) => battery_label(s),
            None => "battery N/A"@,
        },
{
    PanelStatus {
        audio: match audio {
            Some(s) => format_audio(s),
            None => "audio N/A".to_owned(),
        },
        network: match network {
            Some(s) => format_network(s),
            None => "network N/A".to_owned(),
        },
        battery: match battery {
            Some(s) => format_battery(s),
            None => "battery N/A".to_owned(),
        },
    }
}


/// Workspaces are shown by number, the unnumbered ones last, and by name
/// in code-point order among equal numbers; each one given is shown, no
/// other.
pub proof fn law_workspaces_by_number(ws: Seq<WorkspaceView>)
    ensures
        ({
            let sorted = sort_by(ws, by_number_then_name());
            &&& sorted.to_multiset() == ws.to_multiset()
            &&& forall|i: int, j: int|
                0 <= i < j < sorted.len() ==> number_key(#[trigger] sorted[i]) < number_key(#[trigger] sorted[j])
                    || (number_key(sorted[i]) == number_key(sorted[j]) && !chars_before(sorted[j].name, sorted[i].name))
        }),
{
    assert forall|a: WorkspaceView, b: WorkspaceView, c: WorkspaceView|
        #![trigger (by_number_then_name())(a, b), (by_number_then_name())(b, c)]
        !(by_number_then_name())(a, b) && !(by_number_then_name())(b, c) implies !(by_number_then_name())(a, c) by {
        lemma_chars_before_order(a.name, b.name, c.name);
    }
    assert forall|a: WorkspaceView, b: WorkspaceView| #[trigger] (by_number_then_name())(a, b) implies !(
    by_number_then_name())(b, a) by {
        lemma_chars_before_order(a.name, b.name, a.name);
    }
    assert(strict_weak(by_number_then_name()));
    lemma_sort_by(ws, by_number_then_name());
    let sorted = sort_by(ws, by_number_then_name());
    assert forall|i: int, j: int| 0 <= i < j < sorted.len() implies number_key(#[trigger] sorted[i]) < number_key(
        #[trigger] sorted[j],
    ) || (number_key(sorted[i]) == number_key(sorted[j]) && !chars_before(sorted[j].name, sorted[i].name)) by {
        assert(!(by_number_then_name())(sorted[j], sorted[i]));
    }
}

} // verus!
