//! Sequences of window and cluster ids: the mathematical operations the
//! canvas logic performs on them, and executable versions with proofs.

use vstd::multiset::Multiset;
use vstd::prelude::*;

verus! {

broadcast use vstd::seq_lib::group_seq_properties;

/// `s` with every occurrence of `x` removed, order kept.
pub open spec fn remove_all(s: Seq<u64>, x: u64) -> Seq<u64>
    decreases s.len(),
{
    if s.len() == 0 {
        s
    } else {
        let r = remove_all(s.drop_last(), x);
        if s.last() == x {
            r
        } else {
            r.push(s.last())
        }
    }
}

/// The elements of `s` satisfying `pred`, in order.
pub open spec fn keep<A>(s: Seq<A>, pred: spec_fn(A) -> bool) -> Seq<A>
    decreases s.len(),
{
    if s.len() == 0 {
        s
    } else if pred(s.last()) {
        keep(s.drop_last(), pred).push(s.last())
    } else {
        keep(s.drop_last(), pred)
    }
}

/// `x` inserted into `s` from the back: it passes every element it must
/// come `before`, and stops behind the first it need not pass.
pub open spec fn insert_by<A>(s: Seq<A>, x: A, before: spec_fn(A, A) -> bool) -> Seq<A>
    decreases s.len(),
{
    if s.len() == 0 {
        seq![x]
    } else if before(x, s.last()) {
        insert_by(s.drop_last(), x, before).push(s.last())
    } else {
        s.push(x)
    }
}

/// Stable insertion sort of `s` by the strict order `before`: elements that
/// need not be swapped keep their relative order.
pub open spec fn sort_by<A>(s: Seq<A>, before: spec_fn(A, A) -> bool) -> Seq<A>
    decreases s.len(),
{
    if s.len() == 0 {
        s
    } else {
        insert_by(sort_by(s.drop_last(), before), s.last(), before)
    }
}

/// `before` orders strictly and weakly: never both ways, and "need not
/// come before" is transitive.
pub open spec fn strict_weak<A>(before: spec_fn(A, A) -> bool) -> bool {
    &&& forall|a: A, b: A| #[trigger] before(a, b) ==> !before(b, a)
    &&& forall|a: A, b: A, c: A| #![trigger before(a, b), before(b, c)] !before(a, b) && !before(b, c) ==> !before(a, c)
}

/// No element of `s` comes `before` one in front of it.
pub open spec fn sorted_by<A>(s: Seq<A>, before: spec_fn(A, A) -> bool) -> bool {
    forall|i: int, j: int| 0 <= i < j < s.len() ==> !before(#[trigger] s[j], #[trigger] s[i])
}

proof fn lemma_insert_by<A>(s: Seq<A>, x: A, before: spec_fn(A, A) -> bool)
    requires
        strict_weak(before),
        sorted_by(s, before),
    ensures
        sorted_by(insert_by(s, x, before), before),
        insert_by(s, x, before).to_multiset() =~= s.to_multiset().insert(x),
    decreases s.len(),
{
    broadcast use vstd::seq_lib::group_to_multiset_ensures;
    broadcast use vstd::multiset::group_multiset_axioms;

    if s.len() == 0 {
        assert(seq![x] =~= Seq::<A>::empty().push(x));
        assert(Seq::<A>::empty().to_multiset() =~= Multiset::<A>::empty());
    } else if before(x, s.last()) {
        let d = s.drop_last();
        let last = s.last();
        assert(sorted_by(d, before)) by {
            assert forall|i: int, j: int| 0 <= i < j < d.len() implies !before(#[trigger] d[j], #[trigger] d[i]) by {
                assert(d[i] == s[i] && d[j] == s[j]);
            }
        }
        lemma_insert_by(d, x, before);
        let r = insert_by(d, x, before);
        assert(d.push(last) =~= s);
        assert forall|i: int| 0 <= i < r.len() implies !before(last, #[trigger] r[i]) by {
            let e = r[i];
            assert(r.to_multiset().count(e) > 0);
            if e != x {
                assert(d.to_multiset().count(e) > 0);
                assert(d.contains(e));
                let k = choose|k: int| 0 <= k < d.len() && d[k] == e;
                assert(s[k] == e);
                assert(s[s.len() - 1] == last);
            }
        }
        let r2 = r.push(last);
        assert forall|i: int, j: int| 0 <= i < j < r2.len() implies !before(#[trigger] r2[j], #[trigger] r2[i]) by {
            if j == r2.len() - 1 {
                assert(r2[j] == last);
                assert(r2[i] == r[i]);
            } else {
                assert(r2[j] == r[j] && r2[i] == r[i]);
            }
        }
    } else {
        let last = s.last();
        let r2 = s.push(x);
        assert forall|i: int, j: int| 0 <= i < j < r2.len() implies !before(#[trigger] r2[j], #[trigger] r2[i]) by {
            if j == r2.len() - 1 {
                assert(r2[j] == x);
                assert(r2[i] == s[i]);
                if i < s.len() - 1 {
                    assert(!before(s[s.len() - 1], s[i]));
                    assert(!before(x, s[s.len() - 1]));
                }
            } else {
                assert(r2[j] == s[j] && r2[i] == s[i]);
            }
        }
    }
}

/// A stable sort by a strict weak order yields its input, rearranged, with
/// no element in front of one it must come after.
pub proof fn lemma_sort_by<A>(s: Seq<A>, before: spec_fn(A, A) -> bool)
    requires
        strict_weak(before),
    ensures
        sorted_by(sort_by(s, before), before),
        sort_by(s, before).to_multiset() =~= s.to_multiset(),
        sort_by(s, before).len() == s.len(),
    decreases s.len(),
{
    broadcast use vstd::seq_lib::group_to_multiset_ensures;

    if s.len() > 0 {
        lemma_sort_by(s.drop_last(), before);
        lemma_insert_by(sort_by(s.drop_last(), before), s.last(), before);
        assert(s.drop_last().push(s.last()) =~= s);
    }
    assert(sort_by(s, before).to_multiset().len() == s.to_multiset().len());
}

/// Every element that `keep` keeps satisfies the predicate.
pub proof fn lemma_keep_passes<A>(s: Seq<A>, pred: spec_fn(A) -> bool)
    ensures
        forall|i: int| 0 <= i < keep(s, pred).len() ==> pred(#[trigger] keep(s, pred)[i]),
    decreases s.len(),
{
    if s.len() > 0 {
        let d = s.drop_last();
        lemma_keep_passes(d, pred);
        let k = keep(s, pred);
        assert forall|i: int| 0 <= i < k.len() implies pred(#[trigger] k[i]) by {
            if pred(s.last()) && i == k.len() - 1 {
                assert(k[i] == s.last());
            } else {
                assert(k[i] == keep(d, pred)[i]);
            }
        }
    }
}

/// A front part of a sorted sequence is sorted.
pub proof fn lemma_sorted_take<A>(s: Seq<A>, n: int, before: spec_fn(A, A) -> bool)
    requires
        sorted_by(s, before),
        0 <= n <= s.len(),
    ensures
        sorted_by(s.take(n), before),
{
    assert forall|i: int, j: int| 0 <= i < j < s.take(n).len() implies !before(
        #[trigger] s.take(n)[j],
        #[trigger] s.take(n)[i],
    ) by {
        assert(s.take(n)[j] == s[j] && s.take(n)[i] == s[i]);
    }
}

/// Sorting keeps exactly the elements that were there.
pub proof fn lemma_sort_by_contains<A>(s: Seq<A>, before: spec_fn(A, A) -> bool, x: A)
    requires
        strict_weak(before),
    ensures
        sort_by(s, before).contains(x) <==> s.contains(x),
{
    broadcast use vstd::seq_lib::group_to_multiset_ensures;

    lemma_sort_by(s, before);
    assert(sort_by(s, before).to_multiset().count(x) == s.to_multiset().count(x));
}

/// Inserting at the first position from the back where `x` need not pass
/// the element before it.
pub proof fn lemma_insert_by_at<A>(s: Seq<A>, x: A, before: spec_fn(A, A) -> bool, pos: int)
    requires
        0 <= pos <= s.len(),
        forall|k: int| pos <= k < s.len() ==> before(x, #[trigger] s[k]),
        pos == 0 || !before(x, s[pos - 1]),
    ensures
        insert_by(s, x, before) == s.take(pos) + seq![x] + s.skip(pos),
    decreases s.len(),
{
    if s.len() == 0 {
        assert(s.take(pos) + seq![x] + s.skip(pos) =~= seq![x]);
    } else if pos == s.len() {
        assert(s.take(pos) + seq![x] + s.skip(pos) =~= s.push(x));
    } else {
        let d = s.drop_last();
        assert(before(x, s[s.len() - 1]));
        assert forall|k: int| pos <= k < d.len() implies before(x, #[trigger] d[k]) by {
            assert(d[k] == s[k]);
        }
        if pos > 0 {
            assert(d[pos - 1] == s[pos - 1]);
        }
        lemma_insert_by_at(d, x, before, pos);
        assert((d.take(pos) + seq![x] + d.skip(pos)).push(s.last()) =~= s.take(pos) + seq![x] + s.skip(pos));
    }
}

/// `s` with `x` moved (or added) to the front.
pub open spec fn move_to_front(s: Seq<u64>, x: u64) -> Seq<u64> {
    seq![x] + remove_all(s, x)
}

/// The first occurrence of each element of `s`, in order.
pub open spec fn dedupe<A>(s: Seq<A>) -> Seq<A>
    decreases s.len(),
{
    if s.len() == 0 {
        s
    } else {
        let r = dedupe(s.drop_last());
        if r.contains(s.last()) {
            r
        } else {
            r.push(s.last())
        }
    }
}

pub proof fn lemma_remove_all_contains(s: Seq<u64>, x: u64, y: u64)
    ensures
        remove_all(s, x).contains(y) <==> (s.contains(y) && y != x),
        remove_all(s, x).len() <= s.len(),
    decreases s.len(),
{
    if s.len() > 0 {
        lemma_remove_all_contains(s.drop_last(), x, y);
        let r = remove_all(s.drop_last(), x);
        assert(s =~= s.drop_last().push(s.last()));
        if s.contains(y) && y != x {
            let i = choose|i: int| 0 <= i < s.len() && s[i] == y;
            if i < s.len() - 1 {
                assert(s.drop_last()[i] == y);
            } else {
                assert(r.push(s.last())[r.len() as int] == y);
            }
        }
        if remove_all(s, x).contains(y) {
            if s.last() != x {
                let j = choose|j: int| 0 <= j < r.push(s.last()).len() && r.push(s.last())[j] == y;
                if j < r.len() {
                    assert(r[j] == y);
                }
            }
        }
    }
}

pub proof fn lemma_remove_all_absent(s: Seq<u64>, x: u64)
    requires
        !s.contains(x),
    ensures
        remove_all(s, x) == s,
    decreases s.len(),
{
    if s.len() > 0 {
        assert(!s.drop_last().contains(x)) by {
            if s.drop_last().contains(x) {
                let i = choose|i: int| 0 <= i < s.drop_last().len() && s.drop_last()[i] == x;
                assert(s[i] == x);
            }
        }
        lemma_remove_all_absent(s.drop_last(), x);
        assert(s.last() != x) by {
            assert(s[s.len() - 1] == s.last());
        }
        assert(s.drop_last().push(s.last()) =~= s);
    }
}

pub proof fn lemma_remove_all_no_duplicates(s: Seq<u64>, x: u64)
    requires
        s.no_duplicates(),
    ensures
        remove_all(s, x).no_duplicates(),
    decreases s.len(),
{
    if s.len() > 0 {
        let d = s.drop_last();
        assert(d.no_duplicates());
        lemma_remove_all_no_duplicates(d, x);
        if s.last() != x {
            let r = remove_all(d, x);
            lemma_remove_all_contains(d, x, s.last());
            assert(!d.contains(s.last())) by {
                if d.contains(s.last()) {
                    let i = choose|i: int| 0 <= i < d.len() && d[i] == s.last();
                    assert(s[i] == s[s.len() - 1]);
                }
            }
            assert forall|i: int, j: int|
                0 <= i < r.push(s.last()).len() && 0 <= j < r.push(s.last()).len() && i != j
                implies r.push(s.last())[i] != r.push(s.last())[j] by {
                if i < r.len() && j < r.len() {
                } else if i < r.len() {
                    assert(r.contains(r[i]));
                } else if j < r.len() {
                    assert(r.contains(r[j]));
                }
            }
        }
    }
}

pub proof fn lemma_dedupe<A>(s: Seq<A>, y: A)
    ensures
        dedupe(s).contains(y) <==> s.contains(y),
        dedupe(s).no_duplicates(),
        dedupe(s).len() <= s.len(),
    decreases s.len(),
{
    if s.len() > 0 {
        let d = s.drop_last();
        lemma_dedupe(d, y);
        lemma_dedupe(d, s.last());
        let r = dedupe(d);
        assert(s =~= d.push(s.last()));
        if s.contains(y) {
            let i = choose|i: int| 0 <= i < s.len() && s[i] == y;
            if i < s.len() - 1 {
                assert(d[i] == y);
            }
        }
        if !r.contains(s.last()) {
            let q = r.push(s.last());
            assert(q[r.len() as int] == s.last());
            if q.contains(y) {
                let j = choose|j: int| 0 <= j < q.len() && q[j] == y;
                if j < r.len() {
                    assert(r[j] == y);
                }
            }
            assert forall|i: int, j: int| 0 <= i < q.len() && 0 <= j < q.len() && i != j implies q[i]
                != q[j] by {
                if i < r.len() && j < r.len() {
                } else if i < r.len() {
                    assert(r.contains(r[i]));
                } else if j < r.len() {
                    assert(r.contains(r[j]));
                }
            }
        }
    }
}

/// Whether `v` holds `x`.
pub fn vec_contains(v: &Vec<u64>, x: u64) -> (r: bool)
    ensures
        r == v@.contains(x),
{
    let mut i: usize = 0;
    while i < v.len()
        invariant
            i <= v.len(),
            forall|j: int| 0 <= j < i ==> v@[j] != x,
        decreases v.len() - i,
    {
        if v[i] == x {
            return true;
        }
        i += 1;
    }
    false
}

/// A copy of `v` without any occurrence of `x`.
pub fn vec_without(v: &Vec<u64>, x: u64) -> (r: Vec<u64>)
    ensures
        r@ == remove_all(v@, x),
{
    let mut r: Vec<u64> = Vec::new();
    let mut i: usize = 0;
    while i < v.len()
        invariant
            i <= v.len(),
            r@ == remove_all(v@.take(i as int), x),
        decreases v.len() - i,
    {
        assert(v@.take(i as int + 1).drop_last() =~= v@.take(i as int));
        if v[i] != x {
            r.push(v[i]);
        }
        i += 1;
    }
    assert(v@.take(v.len() as int) =~= v@);
    r
}

/// A copy of `v`.
pub fn vec_copy(v: &Vec<u64>) -> (r: Vec<u64>)
    ensures
        r@ == v@,
{
    let mut r: Vec<u64> = Vec::new();
    let mut i: usize = 0;
    while i < v.len()
        invariant
            i <= v.len(),
            r@ == v@.take(i as int),
        decreases v.len() - i,
    {
        r.push(v[i]);
        i += 1;
        assert(r@ =~= v@.take(i as int));
    }
    assert(v@.take(v.len() as int) =~= v@);
    r
}

/// `v` with `x` moved (or added) to the front.
pub fn vec_move_to_front(v: &Vec<u64>, x: u64) -> (r: Vec<u64>)
    ensures
        r@ == move_to_front(v@, x),
{
    let rest = vec_without(v, x);
    let mut r: Vec<u64> = Vec::new();
    r.push(x);
    let mut i: usize = 0;
    while i < rest.len()
        invariant
            i <= rest.len(),
            r@ == seq![x] + rest@.take(i as int),
        decreases rest.len() - i,
    {
        r.push(rest[i]);
        i += 1;
        assert(r@ =~= seq![x] + rest@.take(i as int));
    }
    assert(rest@.take(rest.len() as int) =~= rest@);
    r
}

/// The first occurrence of each element of `v`, in order.
pub fn vec_dedupe(v: &Vec<u64>) -> (r: Vec<u64>)
    ensures
        r@ == dedupe(v@),
{
    let mut r: Vec<u64> = Vec::new();
    let mut i: usize = 0;
    while i < v.len()
        invariant
            i <= v.len(),
            r@ == dedupe(v@.take(i as int)),
        decreases v.len() - i,
    {
        assert(v@.take(i as int + 1).drop_last() =~= v@.take(i as int));
        if !vec_contains(&r, v[i]) {
            r.push(v[i]);
        }
        i += 1;
    }
    assert(v@.take(v.len() as int) =~= v@);
    r
}


pub proof fn lemma_remove_all_first(t: Seq<u64>, x: u64)
    requires
        t.len() > 0,
        t[0] == x,
        !t.drop_first().contains(x),
    ensures
        remove_all(t, x) == t.drop_first(),
    decreases t.len(),
{
    if t.len() == 1 {
        let d = t.drop_last();
        assert(d =~= Seq::<u64>::empty());
        assert(remove_all(d, x) == d);
        assert(remove_all(t, x) == remove_all(d, x));
        assert(t.drop_first() =~= Seq::<u64>::empty());
    } else {
        let d = t.drop_last();
        assert(d[0] == x);
        assert(!d.drop_first().contains(x)) by {
            if d.drop_first().contains(x) {
                let i = choose|i: int| 0 <= i < d.drop_first().len() && d.drop_first()[i] == x;
                assert(t.drop_first()[i] == x);
            }
        }
        lemma_remove_all_first(d, x);
        assert(t.last() != x) by {
            assert(t.drop_first()[t.len() - 2] == t.last());
        }
        assert(remove_all(t, x) == remove_all(d, x).push(t.last()));
        assert(d.drop_first().push(t.last()) =~= t.drop_first());
    }
}

/// The first element of `s` other than `x` leads `remove_all(s, x)`.
pub proof fn lemma_remove_all_head(s: Seq<u64>, x: u64, j: int)
    requires
        0 <= j < s.len(),
        s[j] != x,
        forall|k: int| 0 <= k < j ==> s[k] == x,
    ensures
        remove_all(s, x).len() > 0,
        remove_all(s, x)[0] == s[j],
    decreases s.len(),
{
    let d = s.drop_last();
    if j < s.len() - 1 {
        lemma_remove_all_head(d, x, j);
    } else {
        let r = remove_all(d, x);
        if r.len() > 0 {
            lemma_remove_all_contains(d, x, r[0]);
            assert(r.contains(r[0]));
            let k = choose|k: int| 0 <= k < d.len() && d[k] == r[0];
            assert(d[k] == s[k]);
        }
        assert(remove_all(s, x) == r.push(s.last()));
    }
}

/// The last element of `s` other than `x` ends `remove_all(s, x)`.
pub proof fn lemma_remove_all_tail(s: Seq<u64>, x: u64, j: int)
    requires
        0 <= j < s.len(),
        s[j] != x,
        forall|k: int| j < k < s.len() ==> s[k] == x,
    ensures
        remove_all(s, x).len() > 0,
        remove_all(s, x).last() == s[j],
    decreases s.len(),
{
    if j < s.len() - 1 {
        assert(s.last() == s[s.len() - 1]);
        lemma_remove_all_tail(s.drop_last(), x, j);
    }
}

} // verus!
