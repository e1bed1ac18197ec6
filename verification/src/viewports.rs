//! The overview viewport of each output, kept across window-manager
//! snapshots: outputs that went away lose theirs, the focused output gets
//! one, and when the output that had focus is gone the primary output takes
//! over.
//!
//! The viewport type `V` is left to the caller: this logic only stores,
//! looks up and hands back viewports.

use vstd::prelude::*;

verus! {

/// Viewports by output name; a later entry wins over an earlier one with
/// the same name.
pub open spec fn entry_map<V>(es: Seq<(String, V)>) -> Map<Seq<char>, V>
    decreases es.len(),
{
    if es.len() == 0 {
        Map::empty()
    } else {
        entry_map(es.drop_last()).insert(es.last().0@, es.last().1)
    }
}

/// Whether `name` is one of the connected outputs `outs`.
pub open spec fn is_connected(outs: Seq<String>, name: Seq<char>) -> bool {
    exists|i: int| 0 <= i < outs.len() && (#[trigger] outs[i])@ == name
}

/// The viewports of the outputs still connected.
pub open spec fn connected_only<V>(m: Map<Seq<char>, V>, outs: Seq<String>) -> Map<Seq<char>, V> {
    Map::new(|k: Seq<char>| m.contains_key(k) && is_connected(outs, k), |k: Seq<char>| m[k])
}

/// What a snapshot does to the viewports: given the viewports `m`, the
/// current viewport `vp`, the output that had focus before (`previous`),
/// the snapshot's output `out`, the connected outputs and the primary
/// output, the viewports, the current viewport and the focused output
/// after it.
pub open spec fn reconciled<V>(
    m: Map<Seq<char>, V>,
    vp: V,
    previous: Option<Seq<char>>,
    out: Seq<char>,
    outs: Seq<String>,
    primary: Option<Seq<char>>,
) -> (Map<Seq<char>, V>, V, Seq<char>) {
    let m1 = connected_only(m, outs);
    let (m2, vp2) = if m1.contains_key(out) {
        (m1, m1[out])
    } else {
        (m1.insert(out, vp), vp)
    };
    match previous {
        Some(p) => if !is_connected(outs, p) {
            match primary {
                Some(q) => (m2, if m2.contains_key(q) { m2[q] } else { vp2 }, q),
                None => (m2, vp2, out),
            }
        } else {
            (m2, vp2, out)
        },
        None => (m2, vp2, out),
    }
}

/// The viewports, current viewport and focused output after a snapshot.
pub struct OutputViewports<V> {
    pub output_viewports: Vec<(String, V)>,
    pub viewport: V,
    pub focused_output: String,
}

fn connected_exec(outs: &Vec<String>, name: &str) -> (r: bool)
    ensures
        r == is_connected(outs@, name@),
{
    let want = crate::text::chars_of(name);
    let mut i: usize = 0;
    while i < outs.len()
        invariant
            i <= outs@.len(),
            want@ == name@,
            forall|j: int| 0 <= j < i ==> (#[trigger] outs@[j])@ != name@,
        decreases outs.len() - i,
    {
        if crate::text::chars_eq(&crate::text::chars_of(outs[i].as_str()), &want) {
            return true;
        }
        i += 1;
    }
    false
}

/// The viewport `entries` give output `name`: the last entry of that name.
fn lookup<V: Copy>(entries: &Vec<(String, V)>, name: &str) -> (r: Option<V>)
    ensures
        match r {
            Some(v) => entry_map(entries@).contains_key(name@) && entry_map(entries@)[name@] == v,
            None => !entry_map(entries@).contains_key(name@),
        },
{
    let want = crate::text::chars_of(name);
    let mut found: Option<V> = None;
    let mut i: usize = 0;
    while i < entries.len()
        invariant
            i <= entries@.len(),
            want@ == name@,
            match found {
                Some(v) => entry_map(entries@.take(i as int)).contains_key(name@) && entry_map(
                    entries@.take(i as int),
                )[name@] == v,
                None => !entry_map(entries@.take(i as int)).contains_key(name@),
            },
        decreases entries.len() - i,
    {
        assert(entries@.take(i as int + 1).drop_last() =~= entries@.take(i as int));
        if crate::text::chars_eq(&crate::text::chars_of(entries[i].0.as_str()), &want) {
            found = Some(entries[i].1);
        }
        i += 1;
    }
    assert(entries@.take(i as int) =~= entries@);
    found
}

proof fn lemma_push_entry<V>(es: Seq<(String, V)>, e: (String, V))
    ensures
        entry_map(es.push(e)) == entry_map(es).insert(e.0@, e.1),
{
    assert(es.push(e).drop_last() =~= es);
}

/// Takes a window-manager snapshot into the per-output viewports: the
/// viewports of outputs no longer in `outputs` are dropped; the snapshot's
/// output `output` becomes the focused one and shows its viewport, or keeps
/// the current one as its own; and where the output that had focus before
/// (`previous_output`) is gone, the `primary` output takes focus and its
/// viewport is shown.
pub fn reconcile_output_viewports<V: Copy>(
    entries: &Vec<(String, V)>,
    viewport: V,
    previous_output: Option<&str>,
    output: &str,
    outputs: &Vec<String>,
    primary: Option<&str>,
) -> (r: OutputViewports<V>)
    ensures
        ({
            let prev = match previous_output {
                Some(p) => Some(p@),
                None => None,
            };
            let prim = match primary {
                Some(p) => Some(p@),
                None => None,
            };
            let (m, vp, focus) = reconciled(entry_map(entries@), viewport, prev, output@, outputs@, prim);
            &&& entry_map(r.output_viewports@) == m
            &&& r.viewport == vp
            &&& r.focused_output@ == focus
        }),
{
    let ghost m0 = entry_map(entries@);
    let ghost m1 = connected_only(m0, outputs@);
    // Keep the viewports of connected outputs.
    let mut kept: Vec<(String, V)> = Vec::new();
    let mut i: usize = 0;
    while i < entries.len()
        invariant
            i <= entries@.len(),
            forall|k: Seq<char>| #[trigger] entry_map(kept@).contains_key(k) <==> entry_map(
                entries@.take(i as int),
            ).contains_key(k) && is_connected(outputs@, k),
            forall|k: Seq<char>| #[trigger] entry_map(kept@).contains_key(k) ==> entry_map(kept@)[k] == entry_map(
                entries@.take(i as int),
            )[k],
        decreases entries.len() - i,
    {
        assert(entries@.take(i as int + 1).drop_last() =~= entries@.take(i as int));
        let ghost before = kept@;
        if connected_exec(outputs, entries[i].0.as_str()) {
            let e = (entries[i].0.clone(), entries[i].1);
            kept.push(e);
            proof {
                lemma_push_entry(before, e);
            }
        }
        i += 1;
    }
    assert(entries@.take(i as int) =~= entries@);
    assert(entry_map(kept@) =~= m1);
    let mut current = viewport;
    match lookup(&kept, output) {
        Some(v) => {
            current = v;
        },
        None => {
            let ghost before = kept@;
            let e = (output.to_owned(), viewport);
            kept.push(e);
            proof {
                lemma_push_entry(before, e);
            }
        },
    }
    let mut focused = output.to_owned();
    if let Some(prev) = previous_output {
        if !connected_exec(outputs, prev) {
            if let Some(q) = primary {
                focused = q.to_owned();
                if let Some(v) = lookup(&kept, q) {
                    current = v;
                }
            }
        }
    }
    OutputViewports { output_viewports: kept, viewport: current, focused_output: focused }
}

} // verus!
