//! A stable, id-ordered dump of the daemon's canvas for humans and tools:
//! each cluster with its windows in recency order, then the windows.

use vstd::prelude::*;

use crate::contracts::{CanvasState, ClusterId, ClusterView, Window, WindowId, ZoomLevel};
use crate::daemon::extend_missing;
use crate::seq_util::{insert_by, lemma_insert_by_at, lemma_sort_by, sort_by, strict_weak, vec_contains, vec_copy};

verus! {

/// A cluster in the dump.
#[derive(Debug, Clone)]
pub struct ClusterDump<P> {
    pub id: ClusterId,
    pub name: String,
    pub x: P,
    pub y: P,
    /// The cluster's recency order, then its other windows in order.
    pub window_ids: Vec<WindowId>,
}

pub struct ClusterDumpView<P> {
    pub id: ClusterId,
    pub name: Seq<char>,
    pub x: P,
    pub y: P,
    pub window_ids: Seq<WindowId>,
}

impl<P> View for ClusterDump<P> {
    type V = ClusterDumpView<P>;

    open spec fn view(&self) -> ClusterDumpView<P> {
        ClusterDumpView { id: self.id, name: self.name@, x: self.x, y: self.y, window_ids: self.window_ids@ }
    }
}

/// The dump of the daemon's state.
#[derive(Debug)]
pub struct StateDump<P> {
    pub active_zoom: ZoomLevel,
    pub active_cluster: Option<ClusterId>,
    /// Clusters by id; equal ids keep their order.
    pub clusters: Vec<ClusterDump<P>>,
    /// Windows by id; equal ids keep their order.
    pub windows: Vec<Window>,
}

pub open spec fn dump_views<P>(cs: Seq<ClusterDump<P>>) -> Seq<ClusterDumpView<P>> {
    cs.map_values(|c: ClusterDump<P>| c@)
}

/// How cluster view `c` is dumped.
pub open spec fn cluster_dump<P>(c: ClusterView<P>) -> ClusterDumpView<P> {
    ClusterDumpView { id: c.id, name: c.name, x: c.x, y: c.y, window_ids: extend_missing(c.recency, c.windows) }
}

pub open spec fn by_dump_id<P>() -> spec_fn(ClusterDumpView<P>, ClusterDumpView<P>) -> bool {
    |a: ClusterDumpView<P>, b: ClusterDumpView<P>| a.id < b.id
}

pub open spec fn by_id() -> spec_fn(Window, Window) -> bool {
    |a: Window, b: Window| a.id < b.id
}

/// The dumped clusters of `cs`, by id.
pub open spec fn dumped_clusters<P>(cs: Seq<ClusterView<P>>) -> Seq<ClusterDumpView<P>> {
    sort_by(cs.map_values(|c: ClusterView<P>| cluster_dump(c)), by_dump_id())
}

fn dump_one<P: Copy>(c: &crate::contracts::Cluster<P>) -> (r: ClusterDump<P>)
    ensures
        r@ == cluster_dump(c@),
{
    let mut order = vec_copy(&c.recency);
    let mut i: usize = 0;
    while i < c.windows.len()
        invariant
            i <= c.windows@.len(),
            order@ == extend_missing(c.recency@, c.windows@.take(i as int)),
        decreases c.windows.len() - i,
    {
        assert(c.windows@.take(i as int + 1).drop_last() =~= c.windows@.take(i as int));
        let w = c.windows[i];
        if !vec_contains(&order, w) {
            order.push(w);
        }
        i += 1;
    }
    assert(c.windows@.take(i as int) =~= c.windows@);
    ClusterDump { id: c.id, name: c.name.clone(), x: c.x, y: c.y, window_ids: order }
}

fn sort_dumps<P: Copy>(items: Vec<ClusterDump<P>>) -> (r: Vec<ClusterDump<P>>)
    ensures
        dump_views(r@) == sort_by(dump_views(items@), by_dump_id()),
{
    let ghost orig = dump_views(items@);
    let mut rest = items;
    let mut r: Vec<ClusterDump<P>> = Vec::new();
    let mut i: usize = 0;
    let n = rest.len();
    while rest.len() > 0
        invariant
            n == orig.len(),
            i + rest@.len() == n,
            dump_views(rest@) == orig.skip(i as int),
            dump_views(r@) == sort_by(orig.take(i as int), by_dump_id()),
        decreases rest.len(),
    {
        let ghost old_rest = rest@;
        let x = rest.remove(0);
        assert(dump_views(old_rest)[0] == old_rest[0]@);
        assert(orig.skip(i as int)[0] == orig[i as int]);
        assert(x@ == orig[i as int]);
        let ghost xs = orig.take(i as int + 1);
        assert(xs.drop_last() =~= orig.take(i as int));
        assert(xs.last() == x@);
        let mut pos: usize = r.len();
        while pos > 0 && x.id < r[pos - 1].id
            invariant
                pos <= r@.len(),
                forall|k: int| pos <= k < r@.len() ==> (by_dump_id())(x@, #[trigger] dump_views(r@)[k]),
            decreases pos,
        {
            assert(dump_views(r@)[pos - 1] == r@[pos - 1]@);
            pos -= 1;
        }
        proof {
            if pos > 0 {
                assert(dump_views(r@)[pos - 1] == r@[pos - 1]@);
            }
            lemma_insert_by_at(dump_views(r@), x@, by_dump_id(), pos as int);
        }
        let ghost before = dump_views(r@);
        let ghost dx = x@;
        r.insert(pos, x);
        assert(dump_views(r@) =~= before.take(pos as int) + seq![dx] + before.skip(pos as int));
        i += 1;
        assert forall|k: int| 0 <= k < rest@.len() implies dump_views(rest@)[k] == orig.skip(i as int)[k] by {
            assert(rest@[k] == old_rest[k + 1]);
            assert(dump_views(old_rest)[k + 1] == orig.skip(i - 1)[k + 1]);
        }
        assert(dump_views(rest@) =~= orig.skip(i as int));
    }
    assert(orig.take(i as int) =~= orig);
    r
}

fn sort_windows_by_id(items: Vec<Window>) -> (r: Vec<Window>)
    ensures
        r@ == sort_by(items@, by_id()),
{
    let ghost orig = items@;
    let mut rest = items;
    let mut r: Vec<Window> = Vec::new();
    let mut i: usize = 0;
    let n = rest.len();
    while rest.len() > 0
        invariant
            n == orig.len(),
            i + rest@.len() == n,
            rest@ == orig.skip(i as int),
            r@ == sort_by(orig.take(i as int), by_id()),
        decreases rest.len(),
    {
        let x = rest.remove(0);
        let ghost xs = orig.take(i as int + 1);
        assert(xs.drop_last() =~= orig.take(i as int));
        assert(xs.last() == x);
        let mut pos: usize = r.len();
        while pos > 0 && x.id < r[pos - 1].id
            invariant
                pos <= r@.len(),
                forall|k: int| pos <= k < r@.len() ==> (by_id())(x, #[trigger] r@[k]),
            decreases pos,
        {
            pos -= 1;
        }
        proof {
            lemma_insert_by_at(r@, x, by_id(), pos as int);
        }
        let ghost before = r@;
        let ghost dx = x;
        r.insert(pos, x);
        assert(r@ =~= before.take(pos as int) + seq![dx] + before.skip(pos as int));
        i += 1;
        assert(rest@ =~= orig.skip(i as int));
    }
    assert(orig.take(i as int) =~= orig);
    r
}

/// The dump of canvas `state` with `active_cluster` selected: its zoom
/// level, the clusters by id with their windows in recency order followed
/// by the rest, and the windows by id.
pub fn state_dump<P: Copy>(state: &CanvasState<P>, active_cluster: Option<ClusterId>) -> (r: StateDump<P>)
    ensures
        r.active_zoom == state@.zoom,
        r.active_cluster == active_cluster,
        dump_views(r.clusters@) == dumped_clusters(state@.clusters),
        r.windows@ == sort_by(state@.windows, by_id()),
{
    let mut dumps: Vec<ClusterDump<P>> = Vec::new();
    let mut i: usize = 0;
    while i < state.clusters.len()
        invariant
            i <= state.clusters@.len(),
            dumps@.len() == i,
            forall|k: int| 0 <= k < i ==> (#[trigger] dumps@[k])@ == cluster_dump(state@.clusters[k]),
        decreases state.clusters.len() - i,
    {
        let d = dump_one(&state.clusters[i]);
        assert(state@.clusters[i as int] == state.clusters@[i as int]@);
        dumps.push(d);
        i += 1;
    }
    assert(dump_views(dumps@) =~= state@.clusters.map_values(|c: ClusterView<P>| cluster_dump(c)));
    let clusters = sort_dumps(dumps);
    let mut windows: Vec<Window> = Vec::new();
    let mut j: usize = 0;
    while j < state.windows.len()
        invariant
            j <= state.windows@.len(),
            windows@ == state.windows@.take(j as int),
        decreases state.windows.len() - j,
    {
        windows.push(state.windows[j].duplicate());
        j += 1;
        assert(windows@ =~= state.windows@.take(j as int));
    }
    assert(state.windows@.take(j as int) =~= state.windows@);
    StateDump { active_zoom: state.zoom, active_cluster, clusters, windows: sort_windows_by_id(windows) }
}


/// The dump lists each cluster of the canvas once, in id order, with all
/// of its windows; and each window of the canvas once, in id order.
pub proof fn law_dump_in_id_order<P>(cs: Seq<ClusterView<P>>, ws: Seq<Window>)
    ensures
        ({
            let dumped = dumped_clusters(cs);
            let windows = sort_by(ws, by_id());
            &&& dumped.to_multiset() == cs.map_values(|c: ClusterView<P>| cluster_dump(c)).to_multiset()
            &&& forall|i: int, j: int| 0 <= i < j < dumped.len() ==> #[trigger] dumped[i].id <= #[trigger] dumped[j].id
            &&& windows.to_multiset() == ws.to_multiset()
            &&& forall|i: int, j: int| 0 <= i < j < windows.len() ==> #[trigger] windows[i].id <= #[trigger] windows[j].id
        }),
{
    let mapped = cs.map_values(|c: ClusterView<P>| cluster_dump(c));
    assert(strict_weak(by_dump_id::<P>()));
    assert(strict_weak(by_id()));
    lemma_sort_by(mapped, by_dump_id());
    lemma_sort_by(ws, by_id());
    let dumped = dumped_clusters(cs);
    let windows = sort_by(ws, by_id());
    assert forall|i: int, j: int| 0 <= i < j < dumped.len() implies #[trigger] dumped[i].id <= #[trigger] dumped[j].id by {
        assert(!(by_dump_id::<P>())(dumped[j], dumped[i]));
    }
    assert forall|i: int, j: int| 0 <= i < j < windows.len() implies #[trigger] windows[i].id <= #[trigger] windows[j].id by {
        assert(!(by_id())(windows[j], windows[i]));
    }
}

/// Each cluster's dumped windows are all of its windows, each once when
/// its recency order holds each once.
pub proof fn law_dump_windows_complete(recency: Seq<WindowId>, windows: Seq<WindowId>)
    ensures
        forall|w: WindowId| #[trigger] extend_missing(recency, windows).contains(w) <==> recency.contains(w) || windows.contains(w),
    decreases windows.len(),
{
    if windows.len() > 0 {
        law_dump_windows_complete(recency, windows.drop_last());
        assert forall|w: WindowId| #[trigger] extend_missing(recency, windows).contains(w) <==> recency.contains(w)
            || windows.contains(w) by {
            let d = windows.drop_last();
            let r = extend_missing(recency, d);
            assert(windows =~= d.push(windows.last()));
            if !r.contains(windows.last()) {
                assert(r.push(windows.last()).contains(w) <==> r.contains(w) || w == windows.last()) by {
                    if r.push(windows.last()).contains(w) && w != windows.last() {
                        let k = choose|k: int| 0 <= k < r.len() + 1 && r.push(windows.last())[k] == w;
                        assert(r[k] == w);
                    }
                    if r.contains(w) {
                        let k = choose|k: int| 0 <= k < r.len() && r[k] == w;
                        assert(r.push(windows.last())[k] == w);
                    }
                    if w == windows.last() {
                        assert(r.push(windows.last())[r.len() as int] == w);
                    }
                }
            }
            assert(windows[windows.len() - 1] == windows.last());
            if d.contains(w) {
                let k = choose|k: int| 0 <= k < d.len() && d[k] == w;
                assert(windows[k] == w);
            }
            if windows.contains(w) && w != windows.last() {
                let k = choose|k: int| 0 <= k < windows.len() && windows[k] == w;
                assert(d[k] == w);
            }
        }
    }
}

} // verus!
