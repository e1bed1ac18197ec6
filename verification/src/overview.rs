//! Decisions of the overview canvas widget that do not depend on geometry:
//! shortening labels, stepping the cluster selection, and whether a zoom
//! transition stamped by the daemon still asks for an undive animation.

use vstd::prelude::*;

use crate::contracts::{ClusterId, ZoomLevel, ZoomTransition};
use crate::text::{chars_of, push_str, string_of};

verus! {

broadcast use vstd::seq_lib::group_seq_properties;

/// `s` cut to at most `max_chars` characters, an ellipsis standing in for
/// what was cut.
pub open spec fn truncated(s: Seq<char>, max_chars: nat) -> Seq<char> {
    if s.len() <= max_chars {
        s
    } else {
        s.take(if max_chars == 0 {
            0
        } else {
            max_chars - 1
        }) + seq!['…']
    }
}

/// Shortens a label to `max_chars` characters (counting characters, not
/// bytes), ending it with `…` where it was cut.
pub fn truncate_display(s: &str, max_chars: usize) -> (r: String)
    ensures
        r@ == truncated(s@, max_chars as nat),
{
    let cs = chars_of(s);
    if cs.len() <= max_chars {
        return string_of(&cs);
    }
    let keep = if max_chars == 0 {
        0
    } else {
        max_chars - 1
    };
    let mut out = String::new();
    let mut i: usize = 0;
    while i < keep
        invariant
            keep < cs@.len(),
            i <= keep,
            out@ == cs@.take(i as int),
        decreases keep - i,
    {
        crate::text::push_char(&mut out, cs[i]);
        i += 1;
        assert(out@ =~= cs@.take(i as int));
    }
    crate::text::push_char(&mut out, '…');
    out
}

/// The selection after stepping `direction` clusters from the selected one
/// (from the first where none is selected or it is gone), wrapping around;
/// none when there are no clusters.
pub open spec fn stepped_selection(ids: Seq<ClusterId>, selected: Option<ClusterId>, direction: int) -> Option<
    ClusterId,
> {
    if ids.len() == 0 {
        None
    } else {
        let current = match selected {
            Some(id) => if ids.contains(id) {
                position_of(ids, id)
            } else {
                0
            },
            None => 0,
        };
        Some(ids[(current + direction) % (ids.len() as int)])
    }
}

/// The index of the first `id` in `ids` (the length where there is none).
pub open spec fn position_of(ids: Seq<ClusterId>, id: ClusterId) -> int
    decreases ids.len(),
{
    if ids.len() == 0 || ids[0] == id {
        0
    } else {
        1 + position_of(ids.drop_first(), id)
    }
}

proof fn lemma_position_of(ids: Seq<ClusterId>, id: ClusterId, k: int)
    requires
        0 <= k <= ids.len(),
        forall|j: int| 0 <= j < k ==> ids[j] != id,
        k == ids.len() || ids[k] == id,
    ensures
        position_of(ids, id) == k,
    decreases k,
{
    if k > 0 {
        let d = ids.drop_first();
        assert forall|j: int| 0 <= j < k - 1 implies d[j] != id by {
            assert(d[j] == ids[j + 1]);
        }
        if k < ids.len() {
            assert(d[k - 1] == ids[k]);
        }
        assert(ids[0] != id);
        lemma_position_of(d, id, k - 1);
    }
}

fn find_position(ids: &Vec<ClusterId>, id: ClusterId) -> (r: Option<usize>)
    ensures
        match r {
            Some(k) => ids@.contains(id) && k == position_of(ids@, id) && k < ids@.len(),
            None => !ids@.contains(id),
        },
{
    let mut k: usize = 0;
    while k < ids.len()
        invariant
            k <= ids@.len(),
            forall|j: int| 0 <= j < k ==> ids@[j] != id,
        decreases ids.len() - k,
    {
        if ids[k] == id {
            proof {
                lemma_position_of(ids@, id, k as int);
            }
            assert(ids@[k as int] == id);
            return Some(k);
        }
        k += 1;
    }
    None
}

/// Steps the cluster selection by `direction` (Tab and Shift+Tab).
pub fn next_selection(ids: &Vec<ClusterId>, selected: Option<ClusterId>, direction: isize) -> (r: Option<
    ClusterId,
>)
    ensures
        r == stepped_selection(ids@, selected, direction as int),
{
    let len = ids.len();
    if len == 0 {
        return None;
    }
    let current: usize = match selected {
        Some(id) => match find_position(ids, id) {
            Some(k) => k,
            None => 0,
        },
        None => 0,
    };
    let x: i128 = current as i128 + direction as i128;
    let n: i128 = len as i128;
    let m: i128 = if x >= 0 {
        x % n
    } else {
        let back = (0 - x) % n;
        if back == 0 {
            0
        } else {
            n - back
        }
    };
    proof {
        if x < 0 {
            lemma_negative_rem(x as int, n as int);
        }
    }
    Some(ids[m as usize])
}

proof fn lemma_negative_rem(x: int, n: int)
    requires
        n > 0,
        x < 0,
    ensures
        (-x) % n == 0 ==> x % n == 0,
        (-x) % n != 0 ==> x % n == n - (-x) % n,
{
    let q = (-x) / n;
    let r = (-x) % n;
    assert(-x == q * n + r && 0 <= r < n) by (nonlinear_arith)
        requires
            n > 0,
            q == (-x) / n,
            r == (-x) % n,
    ;
    if r == 0 {
        assert(x == (-q) * n + 0) by (nonlinear_arith)
            requires
                -x == q * n + r,
                r == 0,
        ;
        vstd::arithmetic::div_mod::lemma_fundamental_div_mod_converse(x, n, -q, 0);
    } else {
        assert(x == (-q - 1) * n + (n - r)) by (nonlinear_arith)
            requires
                -x == q * n + r,
        ;
        vstd::arithmetic::div_mod::lemma_fundamental_div_mod_converse(x, n, -q - 1, n - r);
    }
}

/// A label that fits is left as it is; one that does not comes out exactly
/// `max_chars` characters long, the ellipsis counted (one character where
/// `max_chars` is 0).
pub proof fn law_truncated_length(s: Seq<char>, max_chars: nat)
    ensures
        s.len() <= max_chars ==> truncated(s, max_chars) == s,
        s.len() > max_chars && max_chars >= 1 ==> truncated(s, max_chars).len() == max_chars,
        s.len() > max_chars && max_chars >= 1 ==> truncated(s, max_chars).last() == '…',
        s.len() > 0 && max_chars == 0 ==> truncated(s, max_chars) == seq!['…'],
{
    if s.len() > max_chars && max_chars == 0 {
        assert(s.take(0) + seq!['…'] =~= seq!['…']);
    }
}

proof fn lemma_position_of_index(ids: Seq<ClusterId>, k: int)
    requires
        ids.no_duplicates(),
        0 <= k < ids.len(),
    ensures
        position_of(ids, ids[k]) == k,
{
    assert forall|j: int| 0 <= j < k implies ids[j] != ids[k] by {}
    lemma_position_of(ids, ids[k], k);
}

/// Stepping the selection one way and then back returns to the cluster
/// that was selected, when the clusters' ids are distinct and the selected
/// one is among them.
pub proof fn law_selection_step_back(ids: Seq<ClusterId>, selected: ClusterId, direction: int)
    requires
        ids.no_duplicates(),
        ids.contains(selected),
    ensures
        stepped_selection(ids, stepped_selection(ids, Some(selected), direction), -direction) == Some(selected),
{
    let n = ids.len() as int;
    let k = choose|k: int| 0 <= k < ids.len() && ids[k] == selected;
    lemma_position_of_index(ids, k);
    let p = position_of(ids, selected);
    assert(p == k);
    let q = (p + direction) % n;
    vstd::arithmetic::div_mod::lemma_mod_bound(p + direction, n);
    let next = ids[q];
    assert(ids.contains(next));
    lemma_position_of_index(ids, q);
    vstd::arithmetic::div_mod::lemma_sub_mod_noop(p + direction, direction, n);
    vstd::arithmetic::div_mod::lemma_sub_mod_noop(q, direction, n);
    vstd::arithmetic::div_mod::lemma_mod_twice(p + direction, n);
    vstd::arithmetic::div_mod::lemma_small_mod(p as nat, n as nat);
    assert((q + -direction) % n == p);
}

/// The cluster to animate out of, where the canvas carries a fresh
/// cluster-to-overview transition not yet acted on and no drag or move is
/// under way.
pub open spec fn undive_target(
    transition: Option<ZoomTransition>,
    last_handled_at: Option<u64>,
    busy: bool,
) -> Option<ClusterId> {
    match transition {
        None => None,
        Some(t) => match t.from {
            ZoomLevel::Cluster(id) => if t.to == ZoomLevel::Overview && last_handled_at != Some(t.started_at_ms)
                && !busy {
                Some(id)
            } else {
                None
            },
            _ => None,
        },
    }
}

/// Whether an incoming transition asks for an undive animation, and out of
/// which cluster; `busy` tells that a drag or a keyboard move is going on.
pub fn pending_undive_target(
    transition: Option<ZoomTransition>,
    last_handled_at: Option<u64>,
    busy: bool,
) -> (r: Option<ClusterId>)
    ensures
        r == undive_target(transition, last_handled_at, busy),
{
    let t = match transition {
        Some(t) => t,
        None => return None,
    };
    let from_cluster = match t.from {
        ZoomLevel::Cluster(id) => id,
        _ => return None,
    };
    match t.to {
        ZoomLevel::Overview => {},
        _ => return None,
    }
    if last_handled_at == Some(t.started_at_ms) {
        return None;
    }
    if busy {
        return None;
    }
    Some(from_cluster)
}

} // verus!
