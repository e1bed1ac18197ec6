//! The launcher's search: ranking desktop applications against a query,
//! finding open windows and clusters, the recent-window switcher shown for
//! an empty query, the category filter, and the expansion of a desktop
//! entry's `Exec` line into a command.

use vstd::prelude::*;

use crate::contracts::{CanvasState, CanvasView, ClusterId, ClusterView, Window, WindowId, ZoomLevel};
use crate::daemon::cluster_of_window;
use crate::seq_util::{
    dedupe, insert_by, keep, lemma_dedupe, lemma_insert_by_at, lemma_keep_passes, lemma_sort_by, lemma_sort_by_contains,
    lemma_sorted_take, sort_by, sorted_by, strict_weak, vec_dedupe,
};
use crate::control::window_cluster;
use crate::model::find_cluster;
use crate::text::{
    chars_of, contains_chars, decimal, has_prefix, has_substring, push_decimal, push_str,
    starts_with_chars, string_of, to_lowercase, trim, unicode_alphanumeric, unicode_lower,
    trim_ws, is_alphanumeric, chars_less, chars_before, lemma_chars_before_order,
};

verus! {

broadcast use vstd::seq_lib::group_seq_properties;

pub const MATCH_EXACT_PREFIX: i32 = 4;

pub const MATCH_WORD_PREFIX: i32 = 3;

pub const MATCH_SUBSTRING: i32 = 2;

pub const MATCH_KEYWORD: i32 = 1;

/// Score floor of recent windows, above anything applications can score.
pub const RECENT_BASE_SCORE: i32 = 1_000_000;

/// The sections of the result list.
#[derive(Debug, Clone, Copy, PartialEq, Eq, Structural)]
pub enum ResultCategory {
    App,
    Window,
    Cluster,
}

pub open spec fn category_order(c: ResultCategory) -> u8 {
    match c {
        ResultCategory::App => 0,
        ResultCategory::Window => 1,
        ResultCategory::Cluster => 2,
    }
}

impl ResultCategory {
    /// The section header.
    pub fn header_label(self) -> (r: &'static str)
        ensures
            r@ == match self {
                ResultCategory::App => "Apps"@,
                ResultCategory::Window => "Open Windows"@,
                ResultCategory::Cluster => "Clusters"@,
            },
    {
        match self {
            ResultCategory::App => "Apps",
            ResultCategory::Window => "Open Windows",
            ResultCategory::Cluster => "Clusters",
        }
    }

    /// Apps first, then open windows, then clusters.
    pub fn display_order(self) -> (r: u8)
        ensures
            r == category_order(self),
    {
        match self {
            ResultCategory::App => 0,
            ResultCategory::Window => 1,
            ResultCategory::Cluster => 2,
        }
    }
}

/// The Tab-cycled category filter.
#[derive(Debug, Clone, Copy, PartialEq, Eq, Structural)]
pub enum ResultFilter {
    All,
    Only(ResultCategory),
}

pub open spec fn filter_next(f: ResultFilter) -> ResultFilter {
    match f {
        ResultFilter::All => ResultFilter::Only(ResultCategory::App),
        ResultFilter::Only(ResultCategory::App) => ResultFilter::Only(ResultCategory::Window),
        ResultFilter::Only(ResultCategory::Window) => ResultFilter::Only(ResultCategory::Cluster),
        ResultFilter::Only(ResultCategory::Cluster) => ResultFilter::All,
    }
}

pub open spec fn filter_includes(f: ResultFilter, c: ResultCategory) -> bool {
    match f {
        ResultFilter::All => true,
        ResultFilter::Only(cat) => cat == c,
    }
}

impl ResultFilter {
    /// All, then each category in turn, then All again.
    pub fn next(self) -> (r: Self)
        ensures
            r == filter_next(self),
    {
        match self {
            ResultFilter::All => ResultFilter::Only(ResultCategory::App),
            ResultFilter::Only(ResultCategory::App) => ResultFilter::Only(ResultCategory::Window),
            ResultFilter::Only(ResultCategory::Window) => ResultFilter::Only(ResultCategory::Cluster),
            ResultFilter::Only(ResultCategory::Cluster) => ResultFilter::All,
        }
    }

    pub fn includes(self, category: ResultCategory) -> (r: bool)
        ensures
            r == filter_includes(self, category),
    {
        match self {
            ResultFilter::All => true,
            ResultFilter::Only(cat) => cat == category,
        }
    }

    /// The search field's placeholder text.
    pub fn placeholder(self) -> (r: String)
        ensures
            r@ == match self {
                ResultFilter::All => "Launch, switch, or activate…"@,
                ResultFilter::Only(cat) => "Filter: "@ + match cat {
                    ResultCategory::App => "Apps"@,
                    ResultCategory::Window => "Open Windows"@,
                    ResultCategory::Cluster => "Clusters"@,
                } + " only (Tab to cycle)"@,
            },
    {
        match self {
            ResultFilter::All => "Launch, switch, or activate…".to_owned(),
            ResultFilter::Only(cat) => {
                let mut s = String::new();
                push_str(&mut s, "Filter: ");
                push_str(&mut s, cat.header_label());
                push_str(&mut s, " only (Tab to cycle)");
                s
            },
        }
    }
}

/// Cycling the filter four times returns to where it started.
pub proof fn law_filter_cycle(f: ResultFilter)
    ensures
        filter_next(filter_next(filter_next(filter_next(f)))) == f,
{
}

/// An installed application, as read from its desktop file.
#[derive(Debug, Clone)]
pub struct DesktopEntry {
    pub id: String,
    pub path: String,
    pub name: String,
    /// The `Exec` line of the desktop file.
    pub exec_line: String,
    pub icon: Option<String>,
    pub keywords: Vec<String>,
    pub terminal: bool,
}

/// Mathematical view of a desktop entry.
pub struct DesktopView {
    pub id: Seq<char>,
    pub path: Seq<char>,
    pub name: Seq<char>,
    pub exec_line: Seq<char>,
    pub icon: Option<Seq<char>>,
    pub keywords: Seq<String>,
    pub terminal: bool,
}

impl View for DesktopEntry {
    type V = DesktopView;

    open spec fn view(&self) -> DesktopView {
        DesktopView {
            id: self.id@,
            path: self.path@,
            name: self.name@,
            exec_line: self.exec_line@,
            icon: crate::config::opt_chars(self.icon),
            keywords: self.keywords@,
            terminal: self.terminal,
        }
    }
}

/// An application with its search score.
#[derive(Debug, Clone)]
pub struct ScoredEntry {
    pub score: i32,
    pub entry: DesktopEntry,
}

/// One row of the result list.
#[derive(Debug, Clone)]
pub enum SearchResult {
    App(ScoredEntry),
    Window { score: i32, window_id: WindowId, title: String, app_id: String, cluster_name: String },
    Cluster { score: i32, cluster_id: ClusterId, name: String, window_count: usize },
}

/// Mathematical view of a result row: its category, score, id (the
/// window or cluster id; 0 for applications), the texts it shows and, for
/// an application, the desktop entry it launches.
pub struct ResultView {
    pub category: ResultCategory,
    pub score: i32,
    pub id: u64,
    pub title: Seq<char>,
    pub detail: Seq<char>,
    pub cluster_name: Seq<char>,
    pub count: usize,
    pub entry: Option<DesktopView>,
}

impl View for SearchResult {
    type V = ResultView;

    open spec fn view(&self) -> ResultView {
        match self {
            SearchResult::App(e) => ResultView {
                category: ResultCategory::App,
                score: e.score,
                id: 0,
                title: e.entry.name@,
                detail: e.entry.exec_line@,
                cluster_name: Seq::empty(),
                count: 0,
                entry: Some(e.entry@),
            },
            SearchResult::Window { score, window_id, title, app_id, cluster_name } => ResultView {
                category: ResultCategory::Window,
                score: *score,
                id: *window_id,
                title: title@,
                detail: app_id@,
                cluster_name: cluster_name@,
                count: 0,
                entry: None,
            },
            SearchResult::Cluster { score, cluster_id, name, window_count } => ResultView {
                category: ResultCategory::Cluster,
                score: *score,
                id: *cluster_id,
                title: name@,
                detail: Seq::empty(),
                cluster_name: Seq::empty(),
                count: *window_count,
                entry: None,
            },
        }
    }
}

pub open spec fn result_views(rs: Seq<SearchResult>) -> Seq<ResultView> {
    rs.map_values(|r: SearchResult| r@)
}

impl SearchResult {
    pub fn score(&self) -> (r: i32)
        ensures
            r == self@.score,
    {
        match self {
            SearchResult::App(e) => e.score,
            SearchResult::Window { score, .. } => *score,
            SearchResult::Cluster { score, .. } => *score,
        }
    }

    pub fn category(&self) -> (r: ResultCategory)
        ensures
            r == self@.category,
    {
        match self {
            SearchResult::App(_) => ResultCategory::App,
            SearchResult::Window { .. } => ResultCategory::Window,
            SearchResult::Cluster { .. } => ResultCategory::Cluster,
        }
    }

    /// The row's title: the application name, `[W] title (app) — cluster`
    /// or `[C] name (n windows)`.
    pub fn display_title(&self) -> (r: String)
        ensures
            r@ == match self@.category {
                ResultCategory::App => self@.title,
                ResultCategory::Window => "[W] "@ + self@.title + " ("@ + self@.detail + ") — "@
                    + self@.cluster_name,
                ResultCategory::Cluster => "[C] "@ + self@.title + " ("@ + decimal(self@.count as nat)
                    + " windows)"@,
            },
    {
        match self {
            SearchResult::App(e) => e.entry.name.clone(),
            SearchResult::Window { title, app_id, cluster_name, .. } => {
                let mut s = String::new();
                push_str(&mut s, "[W] ");
                push_str(&mut s, title.as_str());
                push_str(&mut s, " (");
                push_str(&mut s, app_id.as_str());
                push_str(&mut s, ") — ");
                push_str(&mut s, cluster_name.as_str());
                s
            },
            SearchResult::Cluster { name, window_count, .. } => {
                let mut s = String::new();
                push_str(&mut s, "[C] ");
                push_str(&mut s, name.as_str());
                push_str(&mut s, " (");
                push_decimal(&mut s, *window_count as u64);
                push_str(&mut s, " windows)");
                s
            },
        }
    }

    /// The icon of the row.
    pub fn icon_name(&self) -> (r: Option<&str>)
        ensures
            match self {
                SearchResult::App(e) => match e.entry.icon {
                    Some(i) => r matches Some(x) && x@ == i@,
                    None => r is None,
                },
                SearchResult::Window { .. } => r matches Some(x) && x@ == "preferences-system-windows-symbolic"@,
                SearchResult::Cluster { .. } => r matches Some(x) && x@ == "view-grid-symbolic"@,
            },
    {
        match self {
            SearchResult::App(e) => match &e.entry.icon {
                Some(i) => Some(i.as_str()),
                None => None,
            },
            SearchResult::Window { .. } => Some("preferences-system-windows-symbolic"),
            SearchResult::Cluster { .. } => Some("view-grid-symbolic"),
        }
    }
}

// ---------------------------------------------------------------------------
// Recent windows for an empty query.
// ---------------------------------------------------------------------------

/// The cluster the canvas is zoomed into, directly or through its focused
/// window.
pub open spec fn active_cluster_of<P>(v: CanvasView<P>) -> Option<ClusterId> {
    match v.zoom {
        ZoomLevel::Cluster(id) => Some(id),
        ZoomLevel::Focus(w) => cluster_of_window(v, w),
        ZoomLevel::Overview => None,
    }
}

/// The first cluster of `cs` with id `a`, if any, then every cluster whose
/// id is not `a`.
pub open spec fn ordered_clusters<P>(cs: Seq<ClusterView<P>>, active: Option<ClusterId>) -> Seq<ClusterView<P>> {
    let rest = keep(cs, |c: ClusterView<P>| Some(c.id) != active);
    match active {
        Some(a) => if crate::model::has_cluster(cs, a) {
            seq![cs[crate::model::cluster_pos(cs, a)]] + rest
        } else {
            rest
        },
        None => rest,
    }
}

/// The recency lists of `cs`, one after the other.
pub open spec fn recency_ids<P>(cs: Seq<ClusterView<P>>) -> Seq<WindowId>
    decreases cs.len(),
{
    if cs.len() == 0 {
        Seq::empty()
    } else {
        recency_ids(cs.drop_last()) + cs.last().recency
    }
}

/// The last window of `ws` with id `id`.
pub open spec fn last_window(ws: Seq<Window>, id: WindowId) -> Option<Window>
    decreases ws.len(),
{
    if ws.len() == 0 {
        None
    } else if ws.last().id == id {
        Some(ws.last())
    } else {
        last_window(ws.drop_last(), id)
    }
}

/// The name of the last cluster of `cs` with id `id`.
pub open spec fn last_cluster_name<P>(cs: Seq<ClusterView<P>>, id: ClusterId) -> Option<Seq<char>>
    decreases cs.len(),
{
    if cs.len() == 0 {
        None
    } else if cs.last().id == id {
        Some(cs.last().name)
    } else {
        last_cluster_name(cs.drop_last(), id)
    }
}

/// The cluster label of a window: its cluster's name, or `unassigned`.
pub open spec fn cluster_label<P>(cs: Seq<ClusterView<P>>, w: Window) -> Seq<char> {
    match w.cluster_id {
        Some(c) => match last_cluster_name(cs, c) {
            Some(n) => n,
            None => "unassigned"@,
        },
        None => "unassigned"@,
    }
}

pub open spec fn app_id_or_empty(w: Window) -> Seq<char> {
    match w.app_id {
        Some(a) => a@,
        None => Seq::empty(),
    }
}

/// The result row of window `w` with score `score`.
pub open spec fn window_row<P>(cs: Seq<ClusterView<P>>, w: Window, score: i32) -> ResultView {
    ResultView {
        category: ResultCategory::Window,
        score: score,
        id: w.id,
        title: w.title@,
        detail: app_id_or_empty(w),
        cluster_name: cluster_label(cs, w),
        count: 0,
        entry: None,
    }
}

/// Whether an id names a window of `ws`.
pub open spec fn known_in(ws: Seq<Window>) -> spec_fn(WindowId) -> bool {
    |id: WindowId| last_window(ws, id) is Some
}

/// The ids of `ids` that name a window of `ws`.
pub open spec fn known_ids(ids: Seq<WindowId>, ws: Seq<Window>) -> Seq<WindowId> {
    keep(ids, known_in(ws))
}

/// The recent-window rows: the windows of the recency lists, the zoomed
/// cluster's first, each window once and only if it still exists, at most
/// `max` of them, scored downwards from [`RECENT_BASE_SCORE`].
pub open spec fn recent_rows<P>(v: CanvasView<P>, max: nat) -> Seq<ResultView> {
    let ids = known_ids(dedupe(recency_ids(ordered_clusters(v.clusters, active_cluster_of(v)))), v.windows);
    let picked = if ids.len() <= max {
        ids
    } else {
        ids.take(max as int)
    };
    rows_for(v, picked)
}

/// The rows of the windows `picked`, scored downwards from
/// [`RECENT_BASE_SCORE`].
pub open spec fn rows_for<P>(v: CanvasView<P>, picked: Seq<WindowId>) -> Seq<ResultView> {
    Seq::new(
        picked.len(),
        |i: int| window_row(v.clusters, last_window(v.windows, picked[i])->0, (RECENT_BASE_SCORE - i) as i32),
    )
}

/// The clusters of `cs` at the positions `idx`.
pub open spec fn pick_clusters<P>(cs: Seq<ClusterView<P>>, idx: Seq<usize>) -> Seq<ClusterView<P>> {
    idx.map_values(|q: usize| cs[q as int])
}

/// A filtered prefix is a prefix of the filtered whole.
pub proof fn lemma_filter_prefix<A>(s: Seq<A>, pred: spec_fn(A) -> bool, n: int)
    requires
        0 <= n <= s.len(),
    ensures
        keep(s, pred).take(keep(s.take(n), pred).len() as int) == keep(s.take(n), pred),
        keep(s.take(n), pred).len() <= keep(s, pred).len(),
    decreases s.len() - n,
{
    if n == s.len() {
        assert(s.take(n) =~= s);
    } else {
        lemma_filter_prefix(s, pred, n + 1);
        let t = s.take(n + 1);
        assert(t.drop_last() =~= s.take(n));
        let a = keep(s.take(n), pred);
        let b = keep(t, pred);
        assert(b == if pred(t.last()) { a.push(t.last()) } else { a });
        assert(b.take(a.len() as int) =~= a);
        assert(keep(s, pred).take(b.len() as int).take(a.len() as int) =~= keep(s, pred).take(a.len() as int));
    }
}

/// Filtering keeps a sequence free of repeats.
pub proof fn lemma_filter_distinct<A>(s: Seq<A>, pred: spec_fn(A) -> bool)
    requires
        s.no_duplicates(),
    ensures
        keep(s, pred).no_duplicates(),
        forall|x: A| #[trigger] keep(s, pred).contains(x) ==> s.contains(x) && pred(x),
    decreases s.len(),
{
    if s.len() > 0 {
        let d = s.drop_last();
        lemma_filter_distinct(d, pred);
        let f = keep(d, pred);
        assert(keep(s, pred) == if pred(s.last()) { f.push(s.last()) } else { f });
        if pred(s.last()) {
            let q = f.push(s.last());
            assert forall|a: int, b: int| 0 <= a < q.len() && 0 <= b < q.len() && a != b implies q[a] != q[b] by {
                if a < f.len() && b < f.len() {
                } else if a < f.len() {
                    assert(f.contains(f[a]));
                } else if b < f.len() {
                    assert(f.contains(f[b]));
                }
            }
        }
        assert forall|x: A| #[trigger] f.contains(x) implies x != s.last() by {
            let j = choose|j: int| 0 <= j < d.len() && d[j] == x;
            assert(s[j] == x);
        }
        assert forall|x: A| #[trigger] keep(s, pred).contains(x) implies s.contains(x) && pred(x) by {
            if f.contains(x) {
                let j = choose|j: int| 0 <= j < d.len() && d[j] == x;
                assert(s[j] == x);
            } else {
                assert(x == s.last());
            }
        }
    }
}

proof fn lemma_last_window_id(ws: Seq<Window>, id: WindowId)
    requires
        last_window(ws, id) is Some,
    ensures
        (last_window(ws, id)->0).id == id,
    decreases ws.len(),
{
    if ws.last().id != id {
        lemma_last_window_id(ws.drop_last(), id);
    }
}

proof fn lemma_last_window_some(ws: Seq<Window>, id: WindowId)
    requires
        last_window(ws, id) is Some,
    ensures
        ws.map_values(|w: Window| w.id).contains(id),
    decreases ws.len(),
{
    if ws.last().id == id {
        assert(ws.map_values(|w: Window| w.id)[ws.len() - 1] == id);
    } else {
        lemma_last_window_some(ws.drop_last(), id);
        let m = ws.drop_last().map_values(|w: Window| w.id);
        let j = choose|j: int| 0 <= j < m.len() && #[trigger] m[j] == id;
        assert(ws.map_values(|w: Window| w.id)[j] == id);
    }
}

/// There are no more distinct known window ids than windows.
proof fn lemma_known_bound(dd: Seq<WindowId>, ws: Seq<Window>, n: int)
    requires
        dd.no_duplicates(),
        0 <= n <= dd.len(),
    ensures
        keep(dd.take(n), known_in(ws)).len() <= ws.len(),
{
    let pred = known_in(ws);
    let t = dd.take(n);
    assert(t.no_duplicates());
    lemma_filter_distinct(t, pred);
    let f = keep(t, pred);
    let wid = ws.map_values(|w: Window| w.id);
    assert forall|x: WindowId| f.to_set().contains(x) implies wid.to_set().contains(x) by {
        assert(f.contains(x));
        lemma_last_window_some(ws, x);
    }
    f.unique_seq_to_set();
    wid.lemma_cardinality_of_set();
    vstd::set_lib::lemma_len_subset(f.to_set(), wid.to_set());
}

fn last_window_exec(ws: &Vec<Window>, id: WindowId) -> (r: Option<usize>)
    ensures
        match r {
            Some(i) => i < ws@.len() && last_window(ws@, id) == Some(ws@[i as int]),
            None => last_window(ws@, id) is None,
        },
{
    let mut k: usize = ws.len();
    while k > 0
        invariant
            k <= ws@.len(),
            last_window(ws@, id) == last_window(ws@.take(k as int), id),
        decreases k,
    {
        let ghost t = ws@.take(k as int);
        assert(t.drop_last() =~= ws@.take(k as int - 1));
        assert(t.last() == ws@[k as int - 1]);
        if ws[k - 1].id == id {
            return Some(k - 1);
        }
        k -= 1;
    }
    None
}

fn last_cluster_name_exec<P>(cs: &Vec<crate::contracts::Cluster<P>>, id: ClusterId) -> (r: Option<usize>)
    ensures
        match r {
            Some(k) => k < cs@.len() && last_cluster_name(cs@.map_values(|c: crate::contracts::Cluster<P>| c@), id) == Some(cs@[k as int].name@),
            None => last_cluster_name(cs@.map_values(|c: crate::contracts::Cluster<P>| c@), id) is None,
        },
{
    let ghost vs = cs@.map_values(|c: crate::contracts::Cluster<P>| c@);
    let mut k: usize = cs.len();
    while k > 0
        invariant
            k <= cs@.len(),
            vs == cs@.map_values(|c: crate::contracts::Cluster<P>| c@),
            last_cluster_name(vs, id) == last_cluster_name(vs.take(k as int), id),
        decreases k,
    {
        let ghost t = vs.take(k as int);
        assert(t.drop_last() =~= vs.take(k as int - 1));
        assert(t.last() == cs@[k as int - 1]@);
        if cs[k - 1].id == id {
            return Some(k - 1);
        }
        k -= 1;
    }
    None
}

/// The cluster label of window `w` of `canvas`.
fn cluster_label_exec<P>(canvas: &CanvasState<P>, w: &Window) -> (r: String)
    ensures
        r@ == cluster_label(canvas@.clusters, *w),
{
    match w.cluster_id {
        Some(c) => match last_cluster_name_exec(&canvas.clusters, c) {
            Some(k) => canvas.clusters[k].name.clone(),
            None => "unassigned".to_owned(),
        },
        None => "unassigned".to_owned(),
    }
}

fn app_id_text(w: &Window) -> (r: String)
    ensures
        r@ == app_id_or_empty(*w),
{
    match &w.app_id {
        Some(a) => a.clone(),
        None => String::new(),
    }
}

/// Recent windows for the empty-query view: the zoomed cluster's recency
/// order first, then the other clusters' in canvas order, each window
/// once, skipping windows that no longer exist, at most `max_results`,
/// scored so that earlier rows rank higher.
pub fn recent_windows<P>(canvas: &CanvasState<P>, max_results: usize) -> (r: Vec<SearchResult>)
    requires
        canvas@.windows.len() < i32::MAX,
    ensures
        result_views(r@) == recent_rows(canvas@, max_results as nat),
{
    let ghost v = canvas@;
    if max_results == 0 {
        let r: Vec<SearchResult> = Vec::new();
        assert(result_views(r@) =~= recent_rows(v, 0));
        return r;
    }
    let active = match canvas.zoom {
        ZoomLevel::Cluster(id) => Some(id),
        ZoomLevel::Focus(w) => window_cluster(canvas, w),
        ZoomLevel::Overview => None,
    };
    assert(active == active_cluster_of(v));
    // Cluster order: the active cluster first.
    let mut order: Vec<usize> = Vec::new();
    let ghost pred = |c: ClusterView<P>| Some(c.id) != active;
    match active {
        Some(a) => match find_cluster(&canvas.clusters, a) {
            Some(k) => {
                order.push(k);
            },
            None => {},
        },
        None => {},
    }
    let ghost head = order@.map_values(|k: usize| v.clusters[k as int]);
    let mut k: usize = 0;
    while k < canvas.clusters.len()
        invariant
            k <= canvas.clusters@.len(),
            v == canvas@,
            forall|j: int| 0 <= j < order@.len() ==> #[trigger] order@[j] < v.clusters.len(),
            pred == (|c: ClusterView<P>| Some(c.id) != active),
            pick_clusters(v.clusters, order@) == head + keep(v.clusters.take(k as int), pred),
        decreases canvas.clusters.len() - k,
    {
        let ghost t = v.clusters.take(k as int + 1);
        assert(t.drop_last() =~= v.clusters.take(k as int));
        assert(t.last() == v.clusters[k as int]);
        assert(keep(t, pred) == if pred(t.last()) {
            keep(v.clusters.take(k as int), pred).push(t.last())
        } else {
            keep(v.clusters.take(k as int), pred)
        });
        assert(v.clusters[k as int] == canvas.clusters@[k as int]@);
        let wanted = match active {
            Some(a) => canvas.clusters[k].id != a,
            None => true,
        };
        assert(t.last().id == canvas.clusters@[k as int].id);
        assert(pred(t.last()) == wanted);
        let ghost before = pick_clusters(v.clusters, order@);
        if wanted {
            order.push(k);
            assert(pick_clusters(v.clusters, order@) =~= before.push(v.clusters[k as int]));
        }
        k += 1;
        assert(pick_clusters(v.clusters, order@) =~= head + keep(v.clusters.take(k as int), pred));
    }
    assert(v.clusters.take(k as int) =~= v.clusters);
    let ghost oc = pick_clusters(v.clusters, order@);
    assert(oc =~= ordered_clusters(v.clusters, active));
    // All recency ids, in cluster order.
    let mut ids: Vec<WindowId> = Vec::new();
    let mut c: usize = 0;
    while c < order.len()
        invariant
            c <= order@.len(),
            v == canvas@,
            forall|j: int| 0 <= j < order@.len() ==> #[trigger] order@[j] < v.clusters.len(),
            oc == pick_clusters(v.clusters, order@),
            ids@ == recency_ids(oc.take(c as int)),
        decreases order.len() - c,
    {
        assert(oc.take(c as int + 1).drop_last() =~= oc.take(c as int));
        let cluster = &canvas.clusters[order[c]];
        assert(oc[c as int] == cluster@);
        let mut j: usize = 0;
        let ghost before = ids@;
        while j < cluster.recency.len()
            invariant
                j <= cluster.recency@.len(),
                ids@ == before + cluster.recency@.take(j as int),
            decreases cluster.recency.len() - j,
        {
            ids.push(cluster.recency[j]);
            j += 1;
            assert(ids@ =~= before + cluster.recency@.take(j as int));
        }
        assert(cluster.recency@.take(j as int) =~= cluster.recency@);
        c += 1;
    }
    assert(oc.take(c as int) =~= oc);
    let dd = vec_dedupe(&ids);
    proof {
        lemma_dedupe(ids@, 0);
    }
    let ghost kpred = known_in(v.windows);
    let ghost all = known_ids(dd@, v.windows);
    let mut results: Vec<SearchResult> = Vec::new();
    let mut i: usize = 0;
    while i < dd.len()
        invariant
            i <= dd@.len(),
            v == canvas@,
            v.windows.len() < i32::MAX,
            all == keep(dd@, kpred),
            kpred == known_in(v.windows),
            dd@ == dedupe(recency_ids(ordered_clusters(v.clusters, active_cluster_of(v)))),
            dd@.no_duplicates(),
            results@.len() < max_results,
            results@.len() == keep(dd@.take(i as int), kpred).len(),
            result_views(results@) == rows_for(v, keep(dd@.take(i as int), kpred)),
        decreases dd.len() - i,
    {
        let ghost pre = keep(dd@.take(i as int), kpred);
        let ghost t = dd@.take(i as int + 1);
        assert(t.drop_last() =~= dd@.take(i as int));
        assert(t.last() == dd@[i as int]);
        assert(keep(t, kpred) == if kpred(t.last()) { pre.push(t.last()) } else { pre });
        let id = dd[i];
        match last_window_exec(&canvas.windows, id) {
            None => {
                i += 1;
            },
            Some(wi) => {
                let w = &canvas.windows[wi];
                assert(last_window(v.windows, id) is Some);
                assert(kpred(id));
                let n = results.len();
                proof {
                    lemma_filter_prefix(dd@, kpred, i as int + 1);
                }
                proof {
                    lemma_known_bound(dd@, v.windows, i as int + 1);
                    assert(keep(dd@.take(i as int + 1), kpred).len() == n + 1);
                }
                let score: i32 = RECENT_BASE_SCORE - n as i32;
                let row = SearchResult::Window {
                    score,
                    window_id: id,
                    title: w.title.clone(),
                    app_id: app_id_text(w),
                    cluster_name: cluster_label_exec(canvas, w),
                };
                assert(last_window(v.windows, id)->0 == *w);
                proof {
                    lemma_last_window_id(v.windows, id);
                }
                assert(row@.score == (RECENT_BASE_SCORE - n) as i32);
                assert(row@.title == w.title@);
                assert(row@.detail == app_id_or_empty(*w));
                assert(row@.cluster_name == cluster_label(v.clusters, *w));
                assert(row@ == window_row(v.clusters, last_window(v.windows, id)->0, (RECENT_BASE_SCORE - n) as i32));
                let ghost old_views = result_views(results@);
                results.push(row);
                assert(result_views(results@) =~= old_views.push(row@));
                assert(keep(t, kpred) == pre.push(id));
                assert(rows_for(v, pre.push(id)) =~= rows_for(v, pre).push(row@));
                i += 1;
                assert(result_views(results@) =~= rows_for(v, keep(dd@.take(i as int), kpred)));
                if results.len() >= max_results {
                    proof {
                        lemma_filter_prefix(dd@, kpred, i as int);
                    }
                    assert(result_views(results@) =~= recent_rows(v, max_results as nat));
                    return results;
                }
            },
        }
    }
    assert(dd@.take(i as int) =~= dd@);
    assert(result_views(results@) =~= recent_rows(v, max_results as nat));
    results
}

// ---------------------------------------------------------------------------
// Windows and clusters matching a query.
// ---------------------------------------------------------------------------

/// Higher score first; equal scores keep their order.
pub open spec fn by_score() -> spec_fn(ResultView, ResultView) -> bool {
    |a: ResultView, b: ResultView| a.score > b.score
}

/// The score of window `w` for the (already lowered) query `q`: app id
/// prefix, title substring, app id substring, in that order of strength.
pub open spec fn window_hit(w: Window, q: Seq<char>) -> Option<i32> {
    window_text_score(unicode_lower(w.title@), unicode_lower(app_id_or_empty(w)), q)
}

/// The score of a window with lowered title `t` and lowered app id `a`
/// for the query `q`.
pub open spec fn window_text_score(t: Seq<char>, a: Seq<char>, q: Seq<char>) -> Option<i32> {
    if has_prefix(a, q) {
        Some((MATCH_EXACT_PREFIX * 10_000) as i32)
    } else if has_substring(t, q) {
        Some((MATCH_SUBSTRING * 10_000) as i32)
    } else if has_substring(a, q) {
        Some((MATCH_KEYWORD * 10_000) as i32)
    } else {
        None
    }
}

/// The score of cluster `c` for the query `q`: name prefix, then name
/// substring.
pub open spec fn cluster_hit<P>(c: ClusterView<P>, q: Seq<char>) -> Option<i32> {
    cluster_text_score(unicode_lower(c.name), q)
}

/// The score of a cluster with lowered name `n` for the query `q`.
pub open spec fn cluster_text_score(n: Seq<char>, q: Seq<char>) -> Option<i32> {
    if has_prefix(n, q) {
        Some((MATCH_EXACT_PREFIX * 10_000) as i32)
    } else if has_substring(n, q) {
        Some((MATCH_SUBSTRING * 10_000) as i32)
    } else {
        None
    }
}

pub open spec fn cluster_row<P>(c: ClusterView<P>, score: i32) -> ResultView {
    ResultView {
        category: ResultCategory::Cluster,
        score: score,
        id: c.id,
        title: c.name,
        detail: Seq::empty(),
        cluster_name: Seq::empty(),
        count: c.windows.len() as usize,
        entry: None,
    }
}

/// The rows of the windows of `ws` that match `q`, in order.
pub open spec fn window_hits<P>(cs: Seq<ClusterView<P>>, ws: Seq<Window>, q: Seq<char>) -> Seq<ResultView>
    decreases ws.len(),
{
    if ws.len() == 0 {
        Seq::empty()
    } else {
        let prev = window_hits(cs, ws.drop_last(), q);
        match window_hit(ws.last(), q) {
            Some(sc) => prev.push(window_row(cs, ws.last(), sc)),
            None => prev,
        }
    }
}

/// The rows of the clusters of `cs` that match `q`, in order.
pub open spec fn cluster_hits<P>(cs: Seq<ClusterView<P>>, q: Seq<char>) -> Seq<ResultView>
    decreases cs.len(),
{
    if cs.len() == 0 {
        Seq::empty()
    } else {
        let prev = cluster_hits(cs.drop_last(), q);
        match cluster_hit(cs.last(), q) {
            Some(sc) => prev.push(cluster_row(cs.last(), sc)),
            None => prev,
        }
    }
}

/// At most `max` elements of `s`, from the front.
pub open spec fn at_most<A>(s: Seq<A>, max: nat) -> Seq<A> {
    if s.len() <= max {
        s
    } else {
        s.take(max as int)
    }
}

/// The window and cluster rows matching `q`, best score first (matching
/// windows before matching clusters on equal scores), at most `max`.
pub open spec fn search_rows<P>(v: CanvasView<P>, q: Seq<char>, max: nat) -> Seq<ResultView> {
    if q.len() == 0 {
        Seq::empty()
    } else {
        at_most(sort_by(window_hits(v.clusters, v.windows, q) + cluster_hits(v.clusters, q), by_score()), max)
    }
}

/// Sorts `v` by descending score, keeping the order of equal scores.
pub fn sort_by_score_desc(v: Vec<SearchResult>) -> (r: Vec<SearchResult>)
    ensures
        result_views(r@) == sort_by(result_views(v@), by_score()),
{
    let ghost orig = result_views(v@);
    let mut rest = v;
    let mut r: Vec<SearchResult> = Vec::new();
    let mut i: usize = 0;
    let n = rest.len();
    while rest.len() > 0
        invariant
            n == orig.len(),
            i + rest@.len() == n,
            result_views(rest@) == orig.skip(i as int),
            result_views(r@) == sort_by(orig.take(i as int), by_score()),
        decreases rest.len(),
    {
        let x = rest.remove(0);
        assert(x@ == orig[i as int]);
        let ghost xs = orig.take(i as int + 1);
        assert(xs.drop_last() =~= orig.take(i as int));
        assert(xs.last() == x@);
        let sc = x.score();
        let mut pos: usize = r.len();
        while pos > 0 && sc > r[pos - 1].score()
            invariant
                pos <= r@.len(),
                sc == x@.score,
                forall|k: int| pos <= k < r@.len() ==> (by_score())(x@, #[trigger] result_views(r@)[k]),
            decreases pos,
        {
            assert(result_views(r@)[pos - 1] == r@[pos - 1]@);
            pos -= 1;
        }
        proof {
            if pos > 0 {
                assert(result_views(r@)[pos - 1] == r@[pos - 1]@);
            }
            lemma_insert_by_at(result_views(r@), x@, by_score(), pos as int);
        }
        let ghost before = result_views(r@);
        r.insert(pos, x);
        assert(result_views(r@) =~= before.take(pos as int) + seq![x@] + before.skip(pos as int));
        i += 1;
        assert(result_views(rest@) =~= orig.skip(i as int));
    }
    assert(orig.take(i as int) =~= orig);
    r
}

/// The score of a window, from its lowered title and app id, for the
/// query.
pub fn window_match_score(title_lower: &str, app_id_lower: &str, query: &str) -> (r: Option<i32>)
    ensures
        r == window_text_score(title_lower@, app_id_lower@, query@),
{
    let title = chars_of(title_lower);
    let app = chars_of(app_id_lower);
    let q = chars_of(query);
    if starts_with_chars(&app, &q) {
        Some(MATCH_EXACT_PREFIX * 10_000)
    } else if contains_chars(&title, &q) {
        Some(MATCH_SUBSTRING * 10_000)
    } else if contains_chars(&app, &q) {
        Some(MATCH_KEYWORD * 10_000)
    } else {
        None
    }
}

/// The score of a cluster, from its lowered name, for the query.
pub fn cluster_match_score(name_lower: &str, query: &str) -> (r: Option<i32>)
    ensures
        r == cluster_text_score(name_lower@, query@),
{
    let name = chars_of(name_lower);
    let q = chars_of(query);
    if starts_with_chars(&name, &q) {
        Some(MATCH_EXACT_PREFIX * 10_000)
    } else if contains_chars(&name, &q) {
        Some(MATCH_SUBSTRING * 10_000)
    } else {
        None
    }
}

fn lowercase_opt(o: &Option<String>) -> (r: String)
    ensures
        r@ == unicode_lower(match o {
            Some(s) => s@,
            None => Seq::empty(),
        }),
{
    match o {
        Some(s) => to_lowercase(s.as_str()),
        None => {
            let e = String::new();
            to_lowercase(e.as_str())
        },
    }
}

/// Open windows and clusters matching the lowered query `query`, best
/// first, at most `max_results`; nothing for an empty query.
pub fn search_windows_and_clusters<P>(canvas: &CanvasState<P>, query: &str, max_results: usize) -> (r:
    Vec<SearchResult>)
    ensures
        result_views(r@) == search_rows(canvas@, query@, max_results as nat),
{
    let ghost v = canvas@;
    let q = chars_of(query);
    if q.len() == 0 {
        let r: Vec<SearchResult> = Vec::new();
        assert(result_views(r@) =~= Seq::<ResultView>::empty());
        return r;
    }
    let mut results: Vec<SearchResult> = Vec::new();
    let mut i: usize = 0;
    while i < canvas.windows.len()
        invariant
            i <= canvas.windows@.len(),
            v == canvas@,
            q@ == query@,
            result_views(results@) == window_hits(v.clusters, v.windows.take(i as int), q@),
        decreases canvas.windows.len() - i,
    {
        let ghost t = v.windows.take(i as int + 1);
        assert(t.drop_last() =~= v.windows.take(i as int));
        assert(t.last() == v.windows[i as int]);
        let w = &canvas.windows[i];
        let title = to_lowercase(w.title.as_str());
        let app = lowercase_opt(&w.app_id);
        let score = window_match_score(title.as_str(), app.as_str(), query);
        assert(score == window_hit(*w, q@));
        match score {
            Some(sc) => {
                let row = SearchResult::Window {
                    score: sc,
                    window_id: w.id,
                    title: w.title.clone(),
                    app_id: app_id_text(w),
                    cluster_name: cluster_label_exec(canvas, w),
                };
                assert(row@ == window_row(v.clusters, *w, sc));
                let ghost before = result_views(results@);
                results.push(row);
                assert(result_views(results@) =~= before.push(row@));
            },
            None => {},
        }
        i += 1;
    }
    assert(v.windows.take(i as int) =~= v.windows);
    let ghost wh = result_views(results@);
    let mut k: usize = 0;
    while k < canvas.clusters.len()
        invariant
            k <= canvas.clusters@.len(),
            v == canvas@,
            q@ == query@,
            result_views(results@) == wh + cluster_hits(v.clusters.take(k as int), q@),
        decreases canvas.clusters.len() - k,
    {
        let ghost t = v.clusters.take(k as int + 1);
        assert(t.drop_last() =~= v.clusters.take(k as int));
        assert(t.last() == v.clusters[k as int]);
        let c = &canvas.clusters[k];
        assert(v.clusters[k as int] == c@);
        let name = to_lowercase(c.name.as_str());
        let score = cluster_match_score(name.as_str(), query);
        assert(score == cluster_hit(c@, q@));
        match score {
            Some(sc) => {
                let row = SearchResult::Cluster {
                    score: sc,
                    cluster_id: c.id,
                    name: c.name.clone(),
                    window_count: c.windows.len(),
                };
                assert(row@ == cluster_row(c@, sc));
                let ghost before = result_views(results@);
                results.push(row);
                assert(result_views(results@) =~= before.push(row@));
            },
            None => {},
        }
        k += 1;
        assert(result_views(results@) =~= wh + cluster_hits(v.clusters.take(k as int), q@));
    }
    assert(v.clusters.take(k as int) =~= v.clusters);
    let mut sorted = sort_by_score_desc(results);
    let ghost all = result_views(sorted@);
    sorted.truncate(max_results);
    assert(result_views(sorted@) =~= at_most(all, max_results as nat));
    sorted
}

// ---------------------------------------------------------------------------
// Ranking applications.
// ---------------------------------------------------------------------------

/// How often and when each application was launched.
#[derive(Debug, Clone, Default)]
pub struct UsageStats {
    /// Launch counts by desktop id.
    pub launches: Vec<(String, u64)>,
    /// Last launch time (seconds since the epoch) by desktop id.
    pub last_launched_unix: Vec<(String, u64)>,
}

/// The value of the first pair of `pairs` whose key is `id`, else 0.
pub open spec fn lookup(pairs: Seq<(String, u64)>, id: Seq<char>) -> u64
    decreases pairs.len(),
{
    if pairs.len() == 0 {
        0
    } else if pairs[0].0@ == id {
        pairs[0].1
    } else {
        lookup(pairs.drop_first(), id)
    }
}

fn lookup_exec(pairs: &Vec<(String, u64)>, id: &str) -> (r: u64)
    ensures
        r == lookup(pairs@, id@),
{
    let idc = chars_of(id);
    let mut i: usize = 0;
    while i < pairs.len()
        invariant
            i <= pairs@.len(),
            idc@ == id@,
            lookup(pairs@, id@) == lookup(pairs@.skip(i as int), id@),
        decreases pairs.len() - i,
    {
        let ghost rest = pairs@.skip(i as int);
        assert(rest[0] == pairs@[i as int]);
        assert(rest.drop_first() =~= pairs@.skip(i as int + 1));
        if crate::text::chars_eq(&chars_of(pairs[i].0.as_str()), &idc) {
            return pairs[i].1;
        }
        i += 1;
    }
    0
}

/// `x` clamped into `i32`.
pub open spec fn clamp_i32(x: int) -> i32 {
    if x > i32::MAX {
        i32::MAX
    } else if x < i32::MIN {
        i32::MIN
    } else {
        x as i32
    }
}

/// Division rounding toward zero, as Rust's `/` does.
pub open spec fn div_toward_zero(x: int, d: int) -> int {
    if x >= 0 {
        x / d
    } else {
        -((-x) / d)
    }
}

/// The usage bonus of application `id`: five points per launch plus one
/// per ten thousand seconds of its last launch time, both read as `i32`
/// and added with saturation.
pub open spec fn usage_boost_of(u: UsageStats, id: Seq<char>) -> i32 {
    let launches = lookup(u.launches@, id) as i32;
    let last = lookup(u.last_launched_unix@, id) as i32;
    clamp_i32(clamp_i32(launches * 5) + div_toward_zero(last as int, 10_000))
}

fn clamp_exec(x: i64) -> (r: i32)
    ensures
        r == clamp_i32(x as int),
{
    if x > i32::MAX as i64 {
        i32::MAX
    } else if x < i32::MIN as i64 {
        i32::MIN
    } else {
        x as i32
    }
}

impl UsageStats {
    pub fn launch_count(&self, id: &str) -> (r: u64)
        ensures
            r == lookup(self.launches@, id@),
    {
        lookup_exec(&self.launches, id)
    }

    pub fn last_launched(&self, id: &str) -> (r: u64)
        ensures
            r == lookup(self.last_launched_unix@, id@),
    {
        lookup_exec(&self.last_launched_unix, id)
    }
}

/// The usage bonus of `entry`.
pub fn usage_boost(entry: &DesktopEntry, usage: &UsageStats) -> (r: i32)
    ensures
        r == usage_boost_of(*usage, entry.id@),
{
    let launches = usage.launch_count(entry.id.as_str()) as i32;
    let last = usage.last_launched(entry.id.as_str()) as i32;
    let boosted = clamp_exec(launches as i64 * 5);
    let recency: i64 = if last >= 0 {
        (last / 10_000) as i64
    } else {
        0 - ((0 - (last as i64)) / 10_000)
    };
    clamp_exec(boosted as i64 + recency)
}

/// A word of `t` (a maximal run of alphanumeric characters) starts with
/// `q`.
pub open spec fn has_word_prefix_spec(t: Seq<char>, q: Seq<char>) -> bool {
    exists|i: int|
        0 <= i < t.len() && unicode_alphanumeric(#[trigger] t[i]) && (i == 0 || !unicode_alphanumeric(t[i - 1]))
            && has_prefix(t.skip(i), q) && forall|k: int| 0 <= k < q.len() ==> unicode_alphanumeric(q[k])
}

/// Whether some word of `text` starts with `query`.
pub fn has_word_prefix(text: &Vec<char>, query: &Vec<char>) -> (r: bool)
    ensures
        r == has_word_prefix_spec(text@, query@),
{
    let mut all_alnum = true;
    let mut k: usize = 0;
    while k < query.len()
        invariant
            k <= query@.len(),
            all_alnum == forall|j: int| 0 <= j < k ==> unicode_alphanumeric(query@[j]),
        decreases query.len() - k,
    {
        if !is_alphanumeric(query[k]) {
            all_alnum = false;
        }
        k += 1;
    }
    if !all_alnum {
        return false;
    }
    let mut prev_alnum = false;
    let tl = text.len();
    let mut i: usize = 0;
    while i < tl
        invariant
            tl == text@.len(),
            i <= text@.len(),
            all_alnum == forall|j: int| 0 <= j < query@.len() ==> unicode_alphanumeric(query@[j]),
            all_alnum,
            i > 0 ==> prev_alnum == unicode_alphanumeric(text@[i - 1]),
            i == 0 ==> !prev_alnum,
            forall|j: int|
                0 <= j < i ==> !(unicode_alphanumeric(#[trigger] text@[j]) && (j == 0 || !unicode_alphanumeric(text@[j - 1]))
                    && has_prefix(text@.skip(j), query@)),
        decreases text.len() - i,
    {
        let c = text[i];
        let alnum = is_alphanumeric(c);
        if alnum && !prev_alnum {
            let mut m: usize = 0;
            let mut same = query.len() <= tl - i;
            while same && m < query.len()
                invariant
                    tl == text@.len(),
                    m <= query@.len(),
                    i < text@.len(),
                    same ==> query@.len() <= text@.len() - i,
                    same == (query@.len() <= text@.len() - i && forall|j: int| 0 <= j < m ==> text@[i + j] == query@[j]),
                decreases query.len() - m,
            {
                if text[i + m] != query[m] {
                    same = false;
                }
                m += 1;
            }
            if same {
                assert(text@.skip(i as int).take(query@.len() as int) =~= query@);
                assert(unicode_alphanumeric(text@[i as int]));
                return true;
            }
            assert(!has_prefix(text@.skip(i as int), query@)) by {
                if has_prefix(text@.skip(i as int), query@) {
                    assert forall|j: int| 0 <= j < query@.len() implies text@[i + j] == query@[j] by {
                        assert(text@.skip(i as int).take(query@.len() as int)[j] == text@[i + j]);
                    }
                }
            }
        }
        prev_alnum = alnum;
        i += 1;
    }
    false
}

impl DesktopEntry {
    /// A field-by-field copy.
    pub fn duplicate(&self) -> (r: Self)
        ensures
            r@ == self@,
    {
        let mut keywords: Vec<String> = Vec::new();
        let mut i: usize = 0;
        while i < self.keywords.len()
            invariant
                i <= self.keywords@.len(),
                keywords@ == self.keywords@.take(i as int),
            decreases self.keywords.len() - i,
        {
            keywords.push(self.keywords[i].clone());
            i += 1;
            assert(keywords@ =~= self.keywords@.take(i as int));
        }
        assert(self.keywords@.take(i as int) =~= self.keywords@);
        DesktopEntry {
            id: self.id.clone(),
            path: self.path.clone(),
            name: self.name.clone(),
            exec_line: self.exec_line.clone(),
            icon: match &self.icon {
                Some(s) => Some(s.clone()),
                None => None,
            },
            keywords,
            terminal: self.terminal,
        }
    }
}

/// The score of a match of class `class` for a query of `qbytes` bytes:
/// the class dominates, shorter queries gain a little, usage adds its
/// bonus.
pub open spec fn weighted(class: i32, qbytes: int, boost: i32) -> i32 {
    (class * 10_000 + (if qbytes >= 100 { 0 } else { 100 - qbytes }) * 10 + boost) as i32
}

/// Some (lowered) keyword of `kws` starts with or contains `q`.
pub open spec fn keyword_hit(kws: Seq<Seq<char>>, q: Seq<char>) -> bool {
    exists|k: int| 0 <= k < kws.len() && (has_prefix(#[trigger] kws[k], q) || has_substring(kws[k], q))
}

/// The keywords of an entry, each lowercased.
pub open spec fn lowered_keywords(kws: Seq<String>) -> Seq<Seq<char>> {
    kws.map_values(|k: String| unicode_lower(k@))
}

/// The score of an entry with lowered name `name`, command `cmd` and
/// keywords `kws` for the normalized query `q` of `qbytes` bytes: name
/// prefix, word prefix of name or command, substring of name or command,
/// keyword, in that order of strength; every application for an empty
/// query.
pub open spec fn entry_text_score(
    name: Seq<char>,
    cmd: Seq<char>,
    kws: Seq<Seq<char>>,
    q: Seq<char>,
    qbytes: int,
    boost: i32,
) -> Option<i32> {
    if q.len() == 0 {
        Some(boost)
    } else if has_prefix(name, q) {
        Some(weighted(MATCH_EXACT_PREFIX, qbytes, boost))
    } else if has_word_prefix_spec(name, q) || has_word_prefix_spec(cmd, q) {
        Some(weighted(MATCH_WORD_PREFIX, qbytes, boost))
    } else if has_substring(name, q) || has_substring(cmd, q) {
        Some(weighted(MATCH_SUBSTRING, qbytes, boost))
    } else if keyword_hit(kws, q) {
        Some(weighted(MATCH_KEYWORD, qbytes, boost))
    } else {
        None
    }
}

/// The score of `e` for the normalized query `q` of `qbytes` bytes, its
/// texts compared in lowercase.
pub open spec fn entry_score(e: DesktopView, q: Seq<char>, qbytes: int, boost: i32) -> Option<i32> {
    entry_text_score(unicode_lower(e.name), unicode_lower(e.exec_line), lowered_keywords(e.keywords), q, qbytes, boost)
}

/// The usage bonus of every entry leaves room for the match score.
pub open spec fn boosts_fit(usage: UsageStats, entries: Seq<DesktopEntry>) -> bool {
    forall|i: int| 0 <= i < entries.len() ==> usage_boost_of(usage, (#[trigger] entries[i]).id@) <= i32::MAX - 41_000
}

/// The score of an entry, from its lowered name, command and keywords, for
/// the normalized `query`, with its usage bonus `boost`.
pub fn entry_match_score(
    name_lower: &str,
    exec_lower: &str,
    keywords_lower: &Vec<String>,
    query: &str,
    boost: i32,
) -> (r: Option<i32>)
    requires
        boost <= i32::MAX - 41_000,
    ensures
        r == entry_text_score(
            name_lower@,
            exec_lower@,
            crate::text::string_seq(keywords_lower@),
            query@,
            (vstd::utf8::encode_utf8(query@).len() as usize) as int,
            boost,
        ),
{
    let q = chars_of(query);
    if q.len() == 0 {
        return Some(boost);
    }
    let qbytes = query.len();
    let bonus: i32 = if qbytes >= 100 { 0 } else { 100 - qbytes as i32 };
    let ghost qb = (vstd::utf8::encode_utf8(query@).len() as usize) as int;
    assert(qbytes == qb);
    assert(bonus as int == if qb >= 100 { 0 } else { 100 - qb });
    assert(0 <= bonus <= 100);
    let name = chars_of(name_lower);
    let cmd = chars_of(exec_lower);
    if starts_with_chars(&name, &q) {
        return Some(MATCH_EXACT_PREFIX * 10_000 + bonus * 10 + boost);
    }
    if has_word_prefix(&name, &q) || has_word_prefix(&cmd, &q) {
        return Some(MATCH_WORD_PREFIX * 10_000 + bonus * 10 + boost);
    }
    if contains_chars(&name, &q) || contains_chars(&cmd, &q) {
        return Some(MATCH_SUBSTRING * 10_000 + bonus * 10 + boost);
    }
    let ghost kws = crate::text::string_seq(keywords_lower@);
    let mut k: usize = 0;
    while k < keywords_lower.len()
        invariant
            k <= keywords_lower@.len(),
            kws == crate::text::string_seq(keywords_lower@),
            q@ == query@,
            q@.len() > 0,
            0 <= bonus <= 100,
            bonus as int == if qb >= 100 { 0 } else { 100 - qb },
            qb == (vstd::utf8::encode_utf8(query@).len() as usize) as int,
            boost <= i32::MAX - 41_000,
            !has_prefix(name_lower@, q@),
            !(has_word_prefix_spec(name_lower@, q@) || has_word_prefix_spec(exec_lower@, q@)),
            !(has_substring(name_lower@, q@) || has_substring(exec_lower@, q@)),
            forall|j: int| 0 <= j < k ==> !(has_prefix(#[trigger] kws[j], q@) || has_substring(kws[j], q@)),
        decreases keywords_lower.len() - k,
    {
        let kw = chars_of(keywords_lower[k].as_str());
        assert(kws[k as int] == kw@);
        if starts_with_chars(&kw, &q) || contains_chars(&kw, &q) {
            assert(keyword_hit(kws, q@));
            return Some(MATCH_KEYWORD * 10_000 + bonus * 10 + boost);
        }
        k += 1;
    }
    None
}

/// The score of `entry` for the normalized `query`, if it matches.
pub fn score_entry(entry: &DesktopEntry, query: &str, usage: &UsageStats) -> (r: Option<i32>)
    requires
        usage_boost_of(*usage, entry.id@) <= i32::MAX - 41_000,
    ensures
        r == entry_score(entry@, query@, (vstd::utf8::encode_utf8(query@).len() as usize) as int, usage_boost_of(*usage, entry.id@)),
{
    let boost = usage_boost(entry, usage);
    let name = to_lowercase(entry.name.as_str());
    let cmd = to_lowercase(entry.exec_line.as_str());
    let ghost lowered = lowered_keywords(entry.keywords@);
    let mut keywords: Vec<String> = Vec::new();
    let mut k: usize = 0;
    while k < entry.keywords.len()
        invariant
            k <= entry.keywords@.len(),
            lowered == lowered_keywords(entry.keywords@),
            crate::text::string_seq(keywords@) == lowered.take(k as int),
        decreases entry.keywords.len() - k,
    {
        let kw = to_lowercase(entry.keywords[k].as_str());
        let ghost before = crate::text::string_seq(keywords@);
        keywords.push(kw);
        assert(crate::text::string_seq(keywords@) =~= before.push(lowered[k as int]));
        assert(lowered.take(k as int + 1) =~= lowered.take(k as int).push(lowered[k as int]));
        k += 1;
    }
    assert(lowered.take(k as int) =~= lowered);
    entry_match_score(name.as_str(), cmd.as_str(), &keywords, query, boost)
}

/// Mathematical view of a scored application.
pub open spec fn scored_view(s: ScoredEntry) -> (i32, DesktopView) {
    (s.score, s.entry@)
}

pub open spec fn scored_views(v: Seq<ScoredEntry>) -> Seq<(i32, DesktopView)> {
    v.map_values(|s: ScoredEntry| scored_view(s))
}

/// Higher score first, then names in code-point order.
pub open spec fn by_score_then_name() -> spec_fn((i32, DesktopView), (i32, DesktopView)) -> bool {
    |a: (i32, DesktopView), b: (i32, DesktopView)| a.0 > b.0 || (a.0 == b.0 && chars_before(a.1.name, b.1.name))
}

/// The entries of `es` that match, with their scores, in order.
pub open spec fn scored_entries(es: Seq<DesktopEntry>, q: Seq<char>, qbytes: int, usage: UsageStats) -> Seq<(i32, DesktopView)>
    decreases es.len(),
{
    if es.len() == 0 {
        Seq::empty()
    } else {
        let prev = scored_entries(es.drop_last(), q, qbytes, usage);
        match entry_score(es.last()@, q, qbytes, usage_boost_of(usage, es.last().id@)) {
            Some(sc) => prev.push((sc, es.last()@)),
            None => prev,
        }
    }
}

/// The normalized form of a query: trimmed, then lowercased.
pub fn normalize_query(query: &str) -> (r: String)
    ensures
        r@ == unicode_lower(trim_ws(query@)),
{
    to_lowercase(trim(query).as_str())
}

/// The applications matching `query` (trimmed and lowercased first), best
/// first and by name among equals, at most `max_results`.
pub fn rank_entries(entries: &[DesktopEntry], query: &str, max_results: usize, usage: &UsageStats) -> (r: Vec<
    ScoredEntry,
>)
    requires
        boosts_fit(*usage, entries@),
    ensures
        ({
            let nq = unicode_lower(trim_ws(query@));
            scored_views(r@) == at_most(
                sort_by(
                    scored_entries(entries@, nq, (vstd::utf8::encode_utf8(nq).len() as usize) as int, *usage),
                    by_score_then_name(),
                ),
                max_results as nat,
            )
        }),
{
    let normalized = normalize_query(query);
    let ghost nq = normalized@;
    let ghost qb = (vstd::utf8::encode_utf8(nq).len() as usize) as int;
    let mut ranked: Vec<ScoredEntry> = Vec::new();
    let mut i: usize = 0;
    while i < entries.len()
        invariant
            i <= entries@.len(),
            nq == normalized@,
            qb == (vstd::utf8::encode_utf8(normalized@).len() as usize) as int,
            boosts_fit(*usage, entries@),
            scored_views(ranked@) == scored_entries(entries@.take(i as int), nq, qb, *usage),
        decreases entries.len() - i,
    {
        let ghost t = entries@.take(i as int + 1);
        assert(t.drop_last() =~= entries@.take(i as int));
        assert(t.last() == entries@[i as int]);
        assert(usage_boost_of(*usage, entries@[i as int].id@) <= i32::MAX - 41_000);
        match score_entry(&entries[i], normalized.as_str(), usage) {
            Some(score) => {
                let e = ScoredEntry { score, entry: entries[i].duplicate() };
                let ghost before = scored_views(ranked@);
                ranked.push(e);
                assert(scored_views(ranked@) =~= before.push((score, entries@[i as int]@)));
            },
            None => {},
        }
        i += 1;
    }
    assert(entries@.take(i as int) =~= entries@);
    let mut sorted = sort_scored(ranked);
    let ghost all = scored_views(sorted@);
    sorted.truncate(max_results);
    assert(scored_views(sorted@) =~= at_most(all, max_results as nat));
    sorted
}

fn scored_before(a: &ScoredEntry, b: &ScoredEntry) -> (r: bool)
    ensures
        r == (by_score_then_name())(scored_view(*a), scored_view(*b)),
{
    if a.score != b.score {
        return a.score > b.score;
    }
    chars_less(&chars_of(a.entry.name.as_str()), &chars_of(b.entry.name.as_str()))
}

fn sort_scored(v: Vec<ScoredEntry>) -> (r: Vec<ScoredEntry>)
    ensures
        scored_views(r@) == sort_by(scored_views(v@), by_score_then_name()),
{
    let ghost orig = scored_views(v@);
    let mut rest = v;
    let mut r: Vec<ScoredEntry> = Vec::new();
    let mut i: usize = 0;
    let n = rest.len();
    while rest.len() > 0
        invariant
            n == orig.len(),
            i + rest@.len() == n,
            scored_views(rest@) == orig.skip(i as int),
            scored_views(r@) == sort_by(orig.take(i as int), by_score_then_name()),
        decreases rest.len(),
    {
        let x = rest.remove(0);
        assert(scored_view(x) == orig[i as int]);
        let ghost xs = orig.take(i as int + 1);
        assert(xs.drop_last() =~= orig.take(i as int));
        assert(xs.last() == scored_view(x));
        let mut pos: usize = r.len();
        while pos > 0 && scored_before(&x, &r[pos - 1])
            invariant
                pos <= r@.len(),
                forall|k: int| pos <= k < r@.len() ==> (by_score_then_name())(scored_view(x), #[trigger] scored_views(r@)[k]),
            decreases pos,
        {
            assert(scored_views(r@)[pos - 1] == scored_view(r@[pos - 1]));
            pos -= 1;
        }
        proof {
            if pos > 0 {
                assert(scored_views(r@)[pos - 1] == scored_view(r@[pos - 1]));
            }
            lemma_insert_by_at(scored_views(r@), scored_view(x), by_score_then_name(), pos as int);
        }
        let ghost before = scored_views(r@);
        r.insert(pos, x);
        assert(scored_views(r@) =~= before.take(pos as int) + seq![scored_view(x)] + before.skip(pos as int));
        i += 1;
        assert(scored_views(rest@) =~= orig.skip(i as int));
    }
    assert(orig.take(i as int) =~= orig);
    r
}

// ---------------------------------------------------------------------------
// Composing the result list.
// ---------------------------------------------------------------------------

/// Sections in display order; within a section, higher score first.
pub open spec fn by_category_then_score() -> spec_fn(ResultView, ResultView) -> bool {
    |a: ResultView, b: ResultView| category_order(a.category) < category_order(b.category) || (
    category_order(a.category) == category_order(b.category) && a.score > b.score)
}

fn category_before(a: &SearchResult, b: &SearchResult) -> (r: bool)
    ensures
        r == (by_category_then_score())(a@, b@),
{
    let oa = a.category().display_order();
    let ob = b.category().display_order();
    oa < ob || (oa == ob && a.score() > b.score())
}

/// Sorts `results` into category-major, score-descending order, keeping
/// the order of rows that tie.
pub fn sort_by_category_and_score(results: &mut Vec<SearchResult>)
    ensures
        result_views(final(results)@) == sort_by(result_views(old(results)@), by_category_then_score()),
{
    let ghost orig = result_views(results@);
    let mut rest: Vec<SearchResult> = Vec::new();
    std::mem::swap(&mut rest, results);
    let mut r: Vec<SearchResult> = Vec::new();
    let mut i: usize = 0;
    let n = rest.len();
    while rest.len() > 0
        invariant
            n == orig.len(),
            i + rest@.len() == n,
            result_views(rest@) == orig.skip(i as int),
            result_views(r@) == sort_by(orig.take(i as int), by_category_then_score()),
        decreases rest.len(),
    {
        let x = rest.remove(0);
        assert(x@ == orig[i as int]);
        let ghost xs = orig.take(i as int + 1);
        assert(xs.drop_last() =~= orig.take(i as int));
        assert(xs.last() == x@);
        let mut pos: usize = r.len();
        while pos > 0 && category_before(&x, &r[pos - 1])
            invariant
                pos <= r@.len(),
                forall|k: int| pos <= k < r@.len() ==> (by_category_then_score())(x@, #[trigger] result_views(r@)[k]),
            decreases pos,
        {
            assert(result_views(r@)[pos - 1] == r@[pos - 1]@);
            pos -= 1;
        }
        proof {
            if pos > 0 {
                assert(result_views(r@)[pos - 1] == r@[pos - 1]@);
            }
            lemma_insert_by_at(result_views(r@), x@, by_category_then_score(), pos as int);
        }
        let ghost before = result_views(r@);
        r.insert(pos, x);
        assert(result_views(r@) =~= before.take(pos as int) + seq![x@] + before.skip(pos as int));
        i += 1;
        assert(result_views(rest@) =~= orig.skip(i as int));
    }
    assert(orig.take(i as int) =~= orig);
    *results = r;
}

/// Rows whose category `f` lets through.
pub open spec fn passes(f: ResultFilter) -> spec_fn(ResultView) -> bool {
    |r: ResultView| filter_includes(f, r.category)
}

/// Drops the rows whose category `filter` excludes.
pub fn apply_filter(results: &mut Vec<SearchResult>, filter: ResultFilter)
    ensures
        result_views(final(results)@) == keep(result_views(old(results)@), passes(filter)),
{
    let ghost orig = result_views(results@);
    let mut rest: Vec<SearchResult> = Vec::new();
    std::mem::swap(&mut rest, results);
    let mut r: Vec<SearchResult> = Vec::new();
    let mut i: usize = 0;
    let n = rest.len();
    while rest.len() > 0
        invariant
            n == orig.len(),
            i + rest@.len() == n,
            result_views(rest@) == orig.skip(i as int),
            result_views(r@) == keep(orig.take(i as int), passes(filter)),
        decreases rest.len(),
    {
        let x = rest.remove(0);
        assert(x@ == orig[i as int]);
        let ghost xs = orig.take(i as int + 1);
        assert(xs.drop_last() =~= orig.take(i as int));
        assert(xs.last() == x@);
        if filter.includes(x.category()) {
            let ghost before = result_views(r@);
            r.push(x);
            assert(result_views(r@) =~= before.push(xs.last()));
        }
        i += 1;
        assert(result_views(rest@) =~= orig.skip(i as int));
    }
    assert(orig.take(i as int) =~= orig);
    *results = r;
}

/// The row of a scored application.
pub open spec fn app_row(s: (i32, DesktopView)) -> ResultView {
    ResultView {
        category: ResultCategory::App,
        score: s.0,
        id: 0,
        title: s.1.name,
        detail: s.1.exec_line,
        cluster_name: Seq::empty(),
        count: 0,
        entry: Some(s.1),
    }
}

pub open spec fn app_rows_of(sv: Seq<(i32, DesktopView)>) -> Seq<ResultView> {
    sv.map_values(|s: (i32, DesktopView)| app_row(s))
}

/// The launcher's rows for `query` under `filter`: the ranked
/// applications, plus (with a canvas) the recent windows for an empty
/// query or the matching windows and clusters otherwise; filtered, grouped
/// by section with the best first, at most `max`.
pub open spec fn launcher_rows<P>(
    apps: Seq<DesktopEntry>,
    query: Seq<char>,
    max: nat,
    usage: UsageStats,
    canvas: Option<CanvasView<P>>,
    filter: ResultFilter,
) -> Seq<ResultView> {
    let nq = unicode_lower(trim_ws(query));
    let ranked = at_most(
        sort_by(scored_entries(apps, nq, (vstd::utf8::encode_utf8(nq).len() as usize) as int, usage), by_score_then_name()),
        max,
    );
    let app_rows = app_rows_of(ranked);
    let canvas_rows = match canvas {
        Some(v) => if nq.len() == 0 {
            recent_rows(v, max)
        } else {
            search_rows(v, nq, max)
        },
        None => Seq::empty(),
    };
    at_most(sort_by(keep(app_rows + canvas_rows, passes(filter)), by_category_then_score()), max)
}

pub open spec fn canvas_view_of<P>(c: Option<&CanvasState<P>>) -> Option<CanvasView<P>> {
    match c {
        Some(s) => Some(s@),
        None => None,
    }
}

/// The launcher's result list for `query` under `filter`.
pub fn compose_launcher_results<P>(
    apps: &[DesktopEntry],
    query: &str,
    max_results: usize,
    usage_stats: &UsageStats,
    canvas: Option<&CanvasState<P>>,
    filter: ResultFilter,
) -> (r: Vec<SearchResult>)
    requires
        boosts_fit(*usage_stats, apps@),
        canvas matches Some(c) ==> c@.windows.len() < i32::MAX,
    ensures
        result_views(r@) == launcher_rows(apps@, query@, max_results as nat, *usage_stats, canvas_view_of(canvas), filter),
{
    let ranked = rank_entries(apps, query, max_results, usage_stats);
    let mut merged: Vec<SearchResult> = Vec::new();
    let mut i: usize = 0;
    let ghost sv = scored_views(ranked@);
    let mut ranked = ranked;
    let n = ranked.len();
    while ranked.len() > 0
        invariant
            n == sv.len(),
            i + ranked@.len() == sv.len(),
            scored_views(ranked@) == sv.skip(i as int),
            result_views(merged@) == app_rows_of(sv.take(i as int)),
        decreases ranked.len(),
    {
        let e = ranked.remove(0);
        assert(scored_view(e) == sv[i as int]);
        let ghost before = result_views(merged@);
        let row = SearchResult::App(e);
        assert(row@ == app_row(sv[i as int]));
        merged.push(row);
        assert(result_views(merged@) =~= before.push(app_row(sv[i as int])));
        assert(app_rows_of(sv.take(i as int + 1)) =~= app_rows_of(sv.take(i as int)).push(app_row(sv[i as int])));
        i += 1;
        assert(result_views(merged@) =~= app_rows_of(sv.take(i as int)));
        assert(scored_views(ranked@) =~= sv.skip(i as int));
    }
    assert(sv.take(i as int) =~= sv);
    let ghost app_rows = result_views(merged@);
    match canvas {
        Some(c) => {
            let normalized = normalize_query(query);
            let mut extra = if normalized.as_str().unicode_len() == 0 {
                recent_windows(c, max_results)
            } else {
                search_windows_and_clusters(c, normalized.as_str(), max_results)
            };
            let ghost before = result_views(merged@);
            let ghost more = result_views(extra@);
            merged.append(&mut extra);
            assert(result_views(merged@) =~= before + more);
        },
        None => {
            assert(result_views(merged@) =~= app_rows + Seq::<ResultView>::empty());
        },
    }
    apply_filter(&mut merged, filter);
    sort_by_category_and_score(&mut merged);
    let ghost all = result_views(merged@);
    merged.truncate(max_results);
    assert(result_views(merged@) =~= at_most(all, max_results as nat));
    merged
}

/// The keywords joined by `", "`.
pub open spec fn joined_keywords(kws: Seq<String>) -> Seq<char>
    decreases kws.len(),
{
    if kws.len() == 0 {
        Seq::empty()
    } else if kws.len() == 1 {
        kws[0]@
    } else {
        joined_keywords(kws.drop_last()) + ", "@ + kws.last()@
    }
}

impl SearchResult {
    /// The row's second line: the command (with the keywords), or what
    /// activating the row does.
    pub fn display_subtitle(&self) -> (r: String)
        ensures
            r@ == match self {
                SearchResult::App(e) => if e.entry.keywords@.len() == 0 {
                    e.entry.exec_line@
                } else {
                    e.entry.exec_line@ + " · "@ + joined_keywords(e.entry.keywords@)
                },
                SearchResult::Window { app_id, .. } => "Focus window · "@ + app_id@,
                SearchResult::Cluster { name, .. } => "Activate cluster · "@ + name@,
            },
    {
        match self {
            SearchResult::App(e) => {
                if e.entry.keywords.len() == 0 {
                    e.entry.exec_line.clone()
                } else {
                    let mut s = e.entry.exec_line.clone();
                    push_str(&mut s, " · ");
                    push_str(&mut s, e.entry.keywords[0].as_str());
                    assert(s@ =~= e.entry.exec_line@ + " · "@ + joined_keywords(e.entry.keywords@.take(1)));
                    let mut i: usize = 1;
                    while i < e.entry.keywords.len()
                        invariant
                            1 <= i <= e.entry.keywords@.len(),
                            s@ == e.entry.exec_line@ + " · "@ + joined_keywords(e.entry.keywords@.take(i as int)),
                        decreases e.entry.keywords.len() - i,
                    {
                        assert(e.entry.keywords@.take(i as int + 1).drop_last() =~= e.entry.keywords@.take(i as int));
                        push_str(&mut s, ", ");
                        push_str(&mut s, e.entry.keywords[i].as_str());
                        i += 1;
                        assert(s@ =~= e.entry.exec_line@ + " · "@ + joined_keywords(e.entry.keywords@.take(i as int)));
                    }
                    assert(e.entry.keywords@.take(i as int) =~= e.entry.keywords@);
                    s
                }
            },
            SearchResult::Window { app_id, .. } => {
                let mut s = String::new();
                push_str(&mut s, "Focus window · ");
                push_str(&mut s, app_id.as_str());
                s
            },
            SearchResult::Cluster { name, .. } => {
                let mut s = String::new();
                push_str(&mut s, "Activate cluster · ");
                push_str(&mut s, name.as_str());
                s
            },
        }
    }
}

// ---------------------------------------------------------------------------
// Recording launches.
// ---------------------------------------------------------------------------

/// What `lookup` gives for key `k` once the value under `id` has been set
/// to `v`.
pub open spec fn updated_lookup(pairs: Seq<(String, u64)>, id: Seq<char>, k: Seq<char>, v: u64) -> u64 {
    if k == id {
        v
    } else {
        lookup(pairs, k)
    }
}

fn set_value(pairs: &mut Vec<(String, u64)>, id: &str, value: u64)
    ensures
        forall|k: Seq<char>| #[trigger] lookup(final(pairs)@, k) == updated_lookup(old(pairs)@, id@, k, value),
{
    let idc = chars_of(id);
    let mut i: usize = 0;
    while i < pairs.len()
        invariant
            i <= pairs@.len(),
            idc@ == id@,
            pairs@ == old(pairs)@,
            forall|j: int| 0 <= j < i ==> (#[trigger] pairs@[j]).0@ != id@,
        decreases pairs.len() - i,
    {
        if crate::text::chars_eq(&chars_of(pairs[i].0.as_str()), &idc) {
            let ghost before = pairs@;
            let key = pairs[i].0.clone();
            pairs.set(i, (key, value));
            proof {
                assert forall|k: Seq<char>| #[trigger] lookup(pairs@, k) == updated_lookup(before, id@, k, value) by {
                    lemma_lookup_set(before, i as int, value, k);
                }
            }
            return;
        }
        i += 1;
    }
    let ghost before = pairs@;
    let entry = (id.to_owned(), value);
    pairs.push(entry);
    proof {
        assert forall|k: Seq<char>| #[trigger] lookup(pairs@, k) == updated_lookup(before, id@, k, value) by {
            lemma_lookup_push(before, entry, k);
        }
    }
}

impl UsageStats {
    /// Counts one more launch of `id` and records `now_unix` (seconds since
    /// the epoch, read from the clock by the caller) as its last launch.
    pub fn record_launch(&mut self, id: &str, now_unix: u64)
        requires
            lookup(old(self).launches@, id@) < u64::MAX,
        ensures
            forall|k: Seq<char>|
                #[trigger] lookup(final(self).launches@, k) == updated_lookup(
                    old(self).launches@,
                    id@,
                    k,
                    (lookup(old(self).launches@, id@) + 1) as u64,
                ),
            forall|k: Seq<char>|
                #[trigger] lookup(final(self).last_launched_unix@, k) == updated_lookup(
                    old(self).last_launched_unix@,
                    id@,
                    k,
                    now_unix,
                ),
    {
        let count = lookup_exec(&self.launches, id);
        set_value(&mut self.launches, id, count + 1);
        set_value(&mut self.last_launched_unix, id, now_unix);
    }
}

proof fn lemma_lookup_set(p: Seq<(String, u64)>, i: int, v: u64, k: Seq<char>)
    requires
        0 <= i < p.len(),
        forall|j: int| 0 <= j < i ==> (#[trigger] p[j]).0@ != p[i].0@,
    ensures
        lookup(p.update(i, (p[i].0, v)), k) == updated_lookup(p, p[i].0@, k, v),
    decreases p.len(),
{
    let q = p.update(i, (p[i].0, v));
    if i == 0 {
        assert(q.drop_first() =~= p.drop_first());
    } else {
        assert(q[0] == p[0]);
        let pd = p.drop_first();
        assert forall|j: int| 0 <= j < i - 1 implies (#[trigger] pd[j]).0@ != pd[i - 1].0@ by {
            assert(pd[j] == p[j + 1]);
        }
        lemma_lookup_set(pd, i - 1, v, k);
        assert(q.drop_first() =~= pd.update(i - 1, (pd[i - 1].0, v)));
    }
}

proof fn lemma_lookup_push(p: Seq<(String, u64)>, e: (String, u64), k: Seq<char>)
    requires
        forall|j: int| 0 <= j < p.len() ==> (#[trigger] p[j]).0@ != e.0@,
    ensures
        lookup(p.push(e), k) == updated_lookup(p, e.0@, k, e.1),
    decreases p.len(),
{
    let q = p.push(e);
    if p.len() == 0 {
        assert(q.drop_first() =~= Seq::<(String, u64)>::empty());
    } else {
        let pd = p.drop_first();
        assert forall|j: int| 0 <= j < pd.len() implies (#[trigger] pd[j]).0@ != e.0@ by {
            assert(pd[j] == p[j + 1]);
        }
        lemma_lookup_push(pd, e, k);
        assert(q.drop_first() =~= pd.push(e));
        assert(q[0] == p[0]);
    }
}


// ---------------------------------------------------------------------------
// Turning an `Exec` line into a command.
// ---------------------------------------------------------------------------

#[verifier::external_type_specification]
#[verifier::external_body]
pub struct ExShellParseError(shell_words::ParseError);

/// What `shell_words::split` makes of a line: its words, or `None` where a
/// quote is left open.
pub uninterp spec fn shell_split(line: Seq<char>) -> Option<Seq<Seq<char>>>;

/// The characters of each string of `v`.
pub open spec fn string_views(v: Seq<String>) -> Seq<Seq<char>> {
    v.map_values(|w: String| w@)
}

/// `shell_words::split`: the words of `line` as a POSIX shell reads them
/// (quotes, backslash escapes, `#` comments), or an error for an unclosed
/// quote. The contract only names the outcome; the splitting rules are
/// not restated here.
#[verifier::external_body]
fn split_words(line: &str) -> (r: Result<Vec<String>, shell_words::ParseError>)
    ensures
        match r {
            Ok(words) => shell_split(line@) == Some(string_views(words@)),
            Err(_) => shell_split(line@) is None,
        },
{
    shell_words::split(line)
}

/// An `Exec` line that could not be split into words.
#[derive(Debug, Clone, Copy, PartialEq, Eq, Structural)]
pub enum ExecParseError {
    MissingClosingQuote,
}

impl ExecParseError {
    pub fn message(&self) -> (r: String)
        ensures
            r@ == seq!['m', 'i', 's', 's', 'i', 'n', 'g', ' ', 'c', 'l', 'o', 's', 'i', 'n', 'g', ' ', 'q', 'u', 'o', 't', 'e'],
    {
        let r = String::from_str("missing closing quote");
        proof {
            reveal_strlit("missing closing quote");
        }
        r
    }
}

/// What the field code `%c` (after the percent sign) stands for in an
/// entry: `%%` a percent sign, `%c` the name, `%k` the file's path, `%i`
/// `--icon` and the icon where there is one; every other code (the file
/// and URL codes among them) stands for nothing.
pub open spec fn field_code(c: char, e: DesktopView) -> Seq<char> {
    if c == '%' {
        seq!['%']
    } else if c == 'c' {
        e.name
    } else if c == 'k' {
        e.path
    } else if c == 'i' {
        match e.icon {
            Some(icon) => seq!['-', '-', 'i', 'c', 'o', 'n', ' '] + icon,
            None => Seq::empty(),
        }
    } else {
        Seq::empty()
    }
}

/// `t` with every field code replaced by what it stands for; a lone
/// percent sign at the end is dropped.
pub open spec fn expand_token(t: Seq<char>, e: DesktopView) -> Seq<char>
    decreases t.len(),
{
    if t.len() == 0 {
        Seq::empty()
    } else if t[0] != '%' {
        seq![t[0]] + expand_token(t.drop_first(), e)
    } else if t.len() == 1 {
        Seq::empty()
    } else {
        field_code(t[1], e) + expand_token(t.subrange(2, t.len() as int), e)
    }
}

/// Expands the field codes of one word of an `Exec` line.
pub fn expand_exec_token(token: &str, entry: &DesktopEntry) -> (r: String)
    ensures
        r@ == expand_token(token@, entry@),
{
    let cs = chars_of(token);
    let n = cs.len();
    let mut out = String::new();
    let mut i: usize = 0;
    while i < n
        invariant
            n == cs@.len(),
            cs@ == token@,
            i <= n,
            expand_token(cs@, entry@) == out@ + expand_token(cs@.subrange(i as int, n as int), entry@),
        decreases n - i,
    {
        let ghost rest = cs@.subrange(i as int, n as int);
        let ghost before = out@;
        let c = cs[i];
        assert(rest[0] == c);
        if c != '%' {
            assert(rest.drop_first() =~= cs@.subrange(i as int + 1, n as int));
            crate::text::push_char(&mut out, c);
            assert(before + (seq![c] + expand_token(rest.drop_first(), entry@)) =~= out@ + expand_token(
                cs@.subrange(i as int + 1, n as int),
                entry@,
            ));
            i += 1;
        } else if i + 1 == n {
            assert(rest.len() == 1);
            assert(cs@.subrange(n as int, n as int) =~= Seq::<char>::empty());
            assert(out@ + Seq::<char>::empty() =~= out@);
            i = n;
        } else {
            let code = cs[i + 1];
            assert(rest[1] == code);
            assert(rest.subrange(2, rest.len() as int) =~= cs@.subrange(i as int + 2, n as int));
            if code == '%' {
                crate::text::push_char(&mut out, '%');
            } else if code == 'c' {
                push_str(&mut out, entry.name.as_str());
            } else if code == 'k' {
                push_str(&mut out, entry.path.as_str());
            } else if code == 'i' {
                match &entry.icon {
                    Some(icon) => {
                        let flag = "--icon ";
                        proof {
                            reveal_strlit("--icon ");
                        }
                        push_str(&mut out, flag);
                        push_str(&mut out, icon.as_str());
                        assert(out@ =~= before + field_code(code, entry@));
                    },
                    None => {},
                }
            }
            assert(out@ =~= before + field_code(code, entry@));
            assert(before + (field_code(code, entry@) + expand_token(rest.subrange(2, rest.len() as int), entry@))
                =~= out@ + expand_token(cs@.subrange(i as int + 2, n as int), entry@));
            i += 2;
        }
    }
    assert(cs@.subrange(n as int, n as int) =~= Seq::<char>::empty());
    assert(out@ + Seq::<char>::empty() =~= out@);
    assert(cs@.subrange(0, n as int) =~= cs@);
    out
}

/// Holds of a word with at least one character.
pub open spec fn nonempty_word() -> spec_fn(Seq<char>) -> bool {
    |w: Seq<char>| w.len() > 0
}

/// The command for the words of an `Exec` line: each word expanded, and
/// the words that expand to nothing left out.
pub open spec fn exec_command_of(words: Seq<Seq<char>>, e: DesktopView) -> Seq<Seq<char>> {
    keep(words.map_values(|w: Seq<char>| expand_token(w, e)), nonempty_word())
}

/// Expands the words of an entry's `Exec` line into its command.
pub fn expand_exec_words(words: &Vec<String>, entry: &DesktopEntry) -> (r: Vec<String>)
    ensures
        string_views(r@) == exec_command_of(string_views(words@), entry@),
{
    let ghost e = entry@;
    let ghost expanded = string_views(words@).map_values(|w: Seq<char>| expand_token(w, e));
    let mut out: Vec<String> = Vec::new();
    let mut i: usize = 0;
    while i < words.len()
        invariant
            i <= words@.len(),
            e == entry@,
            expanded == string_views(words@).map_values(|w: Seq<char>| expand_token(w, e)),
            string_views(out@) == keep(expanded.take(i as int), nonempty_word()),
        decreases words.len() - i,
    {
        let t = expand_exec_token(words[i].as_str(), entry);
        let ghost prev = out@;
        assert(expanded.take(i as int + 1).drop_last() =~= expanded.take(i as int));
        assert(expanded[i as int] == t@);
        assert(expanded.take(i as int + 1).last() == t@);
        if t.as_str().unicode_len() > 0 {
            out.push(t);
            assert(string_views(out@) =~= string_views(prev).push(t@));
        }
        i += 1;
    }
    assert(expanded.take(words@.len() as int) =~= expanded);
    out
}

/// The command that launches `entry`: its `Exec` line split into words as
/// a shell would, each expanded; an unclosed quote is an error.
pub fn build_exec_command(entry: &DesktopEntry) -> (r: Result<Vec<String>, ExecParseError>)
    ensures
        match shell_split(entry.exec_line@) {
            Some(words) => r matches Ok(cmd) && string_views(cmd@) == exec_command_of(words, entry@),
            None => r == Err::<Vec<String>, ExecParseError>(ExecParseError::MissingClosingQuote),
        },
{
    match split_words(entry.exec_line.as_str()) {
        Ok(words) => Ok(expand_exec_words(&words, entry)),
        Err(_) => Err(ExecParseError::MissingClosingQuote),
    }
}

/// The terminal used where none is configured.
pub open spec fn default_terminal() -> Seq<Seq<char>> {
    seq![seq!['f', 'o', 'o', 't']]
}

/// The terminal command for what splitting the configured line gave:
/// its words, or `foot` where it failed or gave none.
pub fn terminal_command_from(parsed: Option<Vec<String>>) -> (r: Vec<String>)
    ensures
        string_views(r@) == (match parsed {
            Some(words) => if words@.len() > 0 { string_views(words@) } else { default_terminal() },
            None => default_terminal(),
        }),
{
    match parsed {
        Some(words) => {
            if words.len() > 0 {
                return words;
            }
        },
        None => {},
    }
    let foot = String::from_str("foot");
    proof {
        reveal_strlit("foot");
    }
    assert(foot@ =~= seq!['f', 'o', 'o', 't']);
    let mut r: Vec<String> = Vec::new();
    r.push(foot);
    assert(string_views(r@) =~= default_terminal());
    r
}

/// The terminal command for the configured line.
pub fn parse_terminal_command(configured: &str) -> (r: Vec<String>)
    ensures
        string_views(r@) == (match shell_split(configured@) {
            Some(words) => if words.len() > 0 { words } else { default_terminal() },
            None => default_terminal(),
        }),
{
    let parsed = match split_words(configured) {
        Ok(words) => Some(words),
        Err(_) => None,
    };
    terminal_command_from(parsed)
}

/// The command line that launches an entry whose expanded command is
/// `cmd`: inside `terminal` (as `terminal -e cmd...`) when asked to or
/// when the entry says so, else `cmd` itself.
pub open spec fn launch_line(cmd: Seq<Seq<char>>, terminal: Seq<Seq<char>>, in_terminal: bool) -> Seq<Seq<char>> {
    if in_terminal {
        terminal + seq![seq!['-', 'e']] + cmd
    } else {
        cmd
    }
}

/// The command line that launches `entry`, in the terminal configured as
/// `terminal_command` when `force_terminal` or the entry asks for one;
/// `None` when its `Exec` line expands to no word at all.
pub fn launch_command(entry: &DesktopEntry, terminal_command: &str, force_terminal: bool) -> (r: Result<
    Option<Vec<String>>,
    ExecParseError,
>)
    ensures
        match shell_split(entry.exec_line@) {
            Some(words) => {
                let cmd = exec_command_of(words, entry@);
                let terminal = match shell_split(terminal_command@) {
                    Some(t) => if t.len() > 0 { t } else { default_terminal() },
                    None => default_terminal(),
                };
                r matches Ok(o) && if cmd.len() == 0 {
                    o is None
                } else {
                    o matches Some(line) && string_views(line@) == launch_line(
                        cmd,
                        terminal,
                        entry.terminal || force_terminal,
                    )
                }
            },
            None => r == Err::<Option<Vec<String>>, ExecParseError>(ExecParseError::MissingClosingQuote),
        },
{
    let cmd = match build_exec_command(entry) {
        Ok(cmd) => cmd,
        Err(e) => return Err(e),
    };
    if cmd.len() == 0 {
        return Ok(None);
    }
    if !(entry.terminal || force_terminal) {
        return Ok(Some(cmd));
    }
    let mut line = parse_terminal_command(terminal_command);
    let ghost term = string_views(line@);
    let dash_e = String::from_str("-e");
    proof {
        reveal_strlit("-e");
    }
    assert(dash_e@ =~= seq!['-', 'e']);
    line.push(dash_e);
    assert(string_views(line@) =~= term.push(seq!['-', 'e']));
    assert(term.push(seq!['-', 'e']) =~= term + seq![seq!['-', 'e']]);
    let mut i: usize = 0;
    while i < cmd.len()
        invariant
            i <= cmd@.len(),
            string_views(line@) == term + seq![seq!['-', 'e']] + string_views(cmd@).take(i as int),
        decreases cmd.len() - i,
    {
        let ghost before = string_views(line@);
        line.push(cmd[i].clone());
        assert(string_views(line@) =~= before.push(cmd@[i as int]@));
        assert(string_views(cmd@).take(i as int + 1) =~= string_views(cmd@).take(i as int).push(cmd@[i as int]@));
        i += 1;
    }
    assert(string_views(cmd@).take(i as int) =~= string_views(cmd@));
    Ok(Some(line))
}

// ---------------------------------------------------------------------------
// Orders of the result lists.
// ---------------------------------------------------------------------------

proof fn lemma_at_most_sorted<A>(s: Seq<A>, max: nat, before: spec_fn(A, A) -> bool)
    requires
        sorted_by(s, before),
    ensures
        sorted_by(at_most(s, max), before),
        at_most(s, max).len() <= max,
        forall|x: A| at_most(s, max).contains(x) ==> s.contains(x),
{
    if s.len() > max {
        lemma_sorted_take(s, max as int, before);
        assert forall|x: A| at_most(s, max).contains(x) implies s.contains(x) by {
            let i = choose|i: int| 0 <= i < at_most(s, max).len() && at_most(s, max)[i] == x;
            assert(s[i] == x);
        }
    }
}

/// Window and cluster search shows at most `max` rows, the best score
/// first.
pub proof fn law_search_rows_best_first<P>(v: CanvasView<P>, q: Seq<char>, max: nat)
    ensures
        ({
            let rows = search_rows(v, q, max);
            &&& rows.len() <= max
            &&& forall|i: int, j: int| 0 <= i < j < rows.len() ==> #[trigger] rows[i].score >= #[trigger] rows[j].score
        }),
{
    assert(strict_weak(by_score()));
    if q.len() > 0 {
        let all = window_hits(v.clusters, v.windows, q) + cluster_hits(v.clusters, q);
        lemma_sort_by(all, by_score());
        lemma_at_most_sorted(sort_by(all, by_score()), max, by_score());
        let rows = search_rows(v, q, max);
        assert forall|i: int, j: int| 0 <= i < j < rows.len() implies #[trigger] rows[i].score >= #[trigger] rows[j].score by {
            assert(!(by_score())(rows[j], rows[i]));
        }
    }
}

/// The applications ranked for a query come best score first, and among
/// equal scores in ascending code-point order of their names; at most
/// `max` of them are kept.
pub proof fn law_ranked_apps_by_score_then_name(
    entries: Seq<DesktopEntry>,
    query: Seq<char>,
    max: nat,
    usage: UsageStats,
)
    ensures
        ({
            let nq = unicode_lower(trim_ws(query));
            let ranked = at_most(
                sort_by(
                    scored_entries(entries, nq, (vstd::utf8::encode_utf8(nq).len() as usize) as int, usage),
                    by_score_then_name(),
                ),
                max,
            );
            &&& ranked.len() <= max
            &&& forall|i: int, j: int|
                0 <= i < j < ranked.len() ==> (#[trigger] ranked[i]).0 > (#[trigger] ranked[j]).0 || (ranked[i].0
                    == ranked[j].0 && !chars_before(ranked[j].1.name, ranked[i].1.name))
        }),
{
    assert forall|a: (i32, DesktopView), b: (i32, DesktopView), c: (i32, DesktopView)|
        #![trigger (by_score_then_name())(a, b), (by_score_then_name())(b, c)]
        !(by_score_then_name())(a, b) && !(by_score_then_name())(b, c) implies !(by_score_then_name())(a, c) by {
        lemma_chars_before_order(a.1.name, b.1.name, c.1.name);
    }
    assert forall|a: (i32, DesktopView), b: (i32, DesktopView)| #[trigger] (by_score_then_name())(a, b) implies !(
    by_score_then_name())(b, a) by {
        lemma_chars_before_order(a.1.name, b.1.name, a.1.name);
    }
    assert(strict_weak(by_score_then_name()));
    let nq = unicode_lower(trim_ws(query));
    let all = scored_entries(entries, nq, (vstd::utf8::encode_utf8(nq).len() as usize) as int, usage);
    lemma_sort_by(all, by_score_then_name());
    lemma_at_most_sorted(sort_by(all, by_score_then_name()), max, by_score_then_name());
    let ranked = at_most(sort_by(all, by_score_then_name()), max);
    assert forall|i: int, j: int| 0 <= i < j < ranked.len() implies (#[trigger] ranked[i]).0 > (
    #[trigger] ranked[j]).0 || (ranked[i].0 == ranked[j].0 && !chars_before(ranked[j].1.name, ranked[i].1.name)) by {
        assert(!(by_score_then_name())(ranked[j], ranked[i]));
    }
}

/// The launcher shows at most `max` rows, each of a section the filter
/// lets through, the sections in display order and the best score first
/// within a section.
pub proof fn law_launcher_rows_grouped<P>(
    apps: Seq<DesktopEntry>,
    query: Seq<char>,
    max: nat,
    usage: UsageStats,
    canvas: Option<CanvasView<P>>,
    filter: ResultFilter,
)
    ensures
        ({
            let rows = launcher_rows(apps, query, max, usage, canvas, filter);
            &&& rows.len() <= max
            &&& forall|i: int| 0 <= i < rows.len() ==> filter_includes(filter, #[trigger] rows[i].category)
            &&& forall|i: int, j: int|
                0 <= i < j < rows.len() ==> category_order(#[trigger] rows[i].category) < category_order(
                    #[trigger] rows[j].category,
                ) || (category_order(rows[i].category) == category_order(rows[j].category) && rows[i].score
                    >= rows[j].score)
        }),
{
    let nq = unicode_lower(trim_ws(query));
    let ranked = at_most(
        sort_by(scored_entries(apps, nq, (vstd::utf8::encode_utf8(nq).len() as usize) as int, usage), by_score_then_name()),
        max,
    );
    let app_rows = app_rows_of(ranked);
    let canvas_rows = match canvas {
        Some(v) => if nq.len() == 0 {
            recent_rows(v, max)
        } else {
            search_rows(v, nq, max)
        },
        None => Seq::empty(),
    };
    let kept = keep(app_rows + canvas_rows, passes(filter));
    assert(strict_weak(by_category_then_score()));
    lemma_keep_passes(app_rows + canvas_rows, passes(filter));
    lemma_sort_by(kept, by_category_then_score());
    let sorted = sort_by(kept, by_category_then_score());
    lemma_at_most_sorted(sorted, max, by_category_then_score());
    let rows = launcher_rows(apps, query, max, usage, canvas, filter);
    assert(rows == at_most(sorted, max));
    assert forall|i: int| 0 <= i < rows.len() implies filter_includes(filter, #[trigger] rows[i].category) by {
        assert(rows.contains(rows[i]));
        lemma_sort_by_contains(kept, by_category_then_score(), rows[i]);
        let k = choose|k: int| 0 <= k < kept.len() && kept[k] == rows[i];
        assert((passes(filter))(kept[k]));
    }
    assert forall|i: int, j: int| 0 <= i < j < rows.len() implies category_order(#[trigger] rows[i].category)
        < category_order(#[trigger] rows[j].category) || (category_order(rows[i].category) == category_order(
        rows[j].category,
    ) && rows[i].score >= rows[j].score) by {
        assert(!(by_category_then_score())(rows[j], rows[i]));
    }
}

} // verus!
