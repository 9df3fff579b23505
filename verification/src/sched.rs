//! The scheduler: compiles declared per-pass edges into an ordered sequence
//! of batches.
//!
//! An edge runs from a producer to a consumer - a pass that writes or
//! produces a slot must precede every pass that reads or consumes it - and
//! from a pass to every pass it explicitly declares itself before (or the
//! other way round for "after"). [`build_schedule`] groups the passes into
//! the minimum number of batches such that every edge points from a
//! strictly earlier batch to a strictly later one, keeping registration
//! order among passes that become ready together; it fails exactly on a
//! cyclic graph, at build time, never silently.

use crate::pass::{NodeView, PassNode};
use crate::res::ResId;
use vstd::prelude::*;
use vstd::seq_lib::*;
use vstd::set_lib::*;

verus! {

/// Whether the pass described by `n` writes or produces slot `r`.
pub open spec fn writes_slot(n: NodeView, r: ResId) -> bool {
    n.writes.contains(r) || n.results.contains(r)
}

/// Whether the pass described by `n` reads or consumes slot `r`.
pub open spec fn consumes_slot(n: NodeView, r: ResId) -> bool {
    n.reads.contains(r) || n.moves.contains(r)
}

/// A resource dependency: some slot `a` writes or produces is read or
/// consumed by `b`.
pub open spec fn data_edge(a: NodeView, b: NodeView) -> bool {
    exists|r: ResId| writes_slot(a, r) && #[trigger] consumes_slot(b, r)
}

/// An explicit ordering constraint: `a` declares itself before `b`'s name,
/// or `b` declares itself after `a`'s name.
pub open spec fn order_edge(a: NodeView, b: NodeView) -> bool {
    a.before.contains(b.name) || b.after.contains(a.name)
}

/// Any reason `a` must run strictly before `b`.
pub open spec fn edge_between(a: NodeView, b: NodeView) -> bool {
    data_edge(a, b) || order_edge(a, b)
}

/// The dependency graph over a pass list: node `u` must precede node `v`.
/// A pass never depends on itself.
pub open spec fn edge(ns: Seq<NodeView>, u: int, v: int) -> bool {
    &&& 0 <= u < ns.len()
    &&& 0 <= v < ns.len()
    &&& u != v
    &&& edge_between(ns[u], ns[v])
}

/// A rank assignment witnessing that every edge can point strictly forward.
pub open spec fn respects_edges(ns: Seq<NodeView>, rk: Seq<int>) -> bool {
    &&& rk.len() == ns.len()
    &&& forall|u: int, v: int| #[trigger] edge(ns, u, v) ==> rk[u] < rk[v]
}

/// Whether some execution order satisfies every declared edge.
pub open spec fn schedulable(ns: Seq<NodeView>) -> bool {
    exists|rk: Seq<int>| respects_edges(ns, rk)
}

/// A non-empty closed walk along edges.
pub open spec fn is_cycle(ns: Seq<NodeView>, c: Seq<int>) -> bool {
    &&& c.len() >= 1
    &&& forall|i: int| 0 <= i < c.len() - 1 ==> #[trigger] edge(ns, c[i], c[i + 1])
    &&& edge(ns, c[c.len() - 1], c[0])
}

/// Whether the declared edges contain a cycle.
pub open spec fn has_cycle(ns: Seq<NodeView>) -> bool {
    exists|c: Seq<int>| is_cycle(ns, c)
}

proof fn lemma_cycle_rank_chain(ns: Seq<NodeView>, c: Seq<int>, rk: Seq<int>, i: int)
    requires
        is_cycle(ns, c),
        respects_edges(ns, rk),
        0 <= i < c.len(),
    ensures
        rk[c[0]] <= rk[c[i]],
    decreases i,
{
    if i > 0 {
        lemma_cycle_rank_chain(ns, c, rk, i - 1);
        assert(edge(ns, c[i - 1], c[i - 1 + 1]));
    }
}

/// A graph that contains a cycle among its declared edges admits no
/// schedule at all: no rank assignment can make every edge point forward.
pub proof fn lemma_cycle_unschedulable(ns: Seq<NodeView>, c: Seq<int>)
    requires
        is_cycle(ns, c),
    ensures
        !schedulable(ns),
{
    if schedulable(ns) {
        let rk = choose|rk: Seq<int>| respects_edges(ns, rk);
        lemma_cycle_rank_chain(ns, c, rk, c.len() - 1);
        assert(edge(ns, c[c.len() - 1], c[0]));
        assert(false);
    }
}

/// Whether some predecessor of `v` is still pending.
pub open spec fn has_pending_pred(ns: Seq<NodeView>, pend: Seq<bool>, v: int) -> bool {
    exists|u: int| (0 <= u < pend.len() && #[trigger] pend[u]) && edge(ns, u, v)
}

/// The condition under which batch collection stalls: some passes are
/// still pending and every pending pass has a pending predecessor.
pub open spec fn stuck(ns: Seq<NodeView>, pend: Seq<bool>) -> bool {
    &&& pend.len() == ns.len()
    &&& exists|v: int| 0 <= v < pend.len() && #[trigger] pend[v]
    &&& forall|v: int| 0 <= v < pend.len() && #[trigger] pend[v] ==> has_pending_pred(ns, pend, v)
}

proof fn lemma_min_pending(rk: Seq<int>, pend: Seq<bool>, k: int)
    requires
        rk.len() == pend.len(),
        0 < k <= rk.len(),
        exists|v: int| 0 <= v < k && pend[v],
    ensures
        exists|v: int|
            0 <= v < k && pend[v] && (forall|u: int| 0 <= u < k && pend[u] ==> rk[v] <= rk[u]),
    decreases k,
{
    if pend[k - 1] {
        if exists|v: int| 0 <= v < k - 1 && pend[v] {
            lemma_min_pending(rk, pend, k - 1);
            let m = choose|v: int|
                0 <= v < k - 1 && pend[v] && (forall|u: int|
                    0 <= u < k - 1 && pend[u] ==> rk[v] <= rk[u]);
            if rk[k - 1] < rk[m] {
                assert(0 <= k - 1 < k && pend[k - 1] && (forall|u: int|
                    0 <= u < k && pend[u] ==> rk[k - 1] <= rk[u]));
            } else {
                assert(0 <= m < k && pend[m] && (forall|u: int|
                    0 <= u < k && pend[u] ==> rk[m] <= rk[u]));
            }
        } else {
            assert(0 <= k - 1 < k && pend[k - 1] && (forall|u: int|
                0 <= u < k && pend[u] ==> rk[k - 1] <= rk[u]));
        }
    } else {
        lemma_min_pending(rk, pend, k - 1);
        let m = choose|v: int|
            0 <= v < k - 1 && pend[v] && (forall|u: int|
                0 <= u < k - 1 && pend[u] ==> rk[v] <= rk[u]);
        assert(0 <= m < k && pend[m] && (forall|u: int|
            0 <= u < k && pend[u] ==> rk[m] <= rk[u]));
    }
}

proof fn lemma_stuck_unschedulable(ns: Seq<NodeView>, pend: Seq<bool>)
    requires
        stuck(ns, pend),
    ensures
        !schedulable(ns),
{
    if schedulable(ns) {
        let rk = choose|rk: Seq<int>| respects_edges(ns, rk);
        lemma_min_pending(rk, pend, pend.len() as int);
        let m = choose|v: int|
            0 <= v < pend.len() && pend[v] && (forall|u: int|
                0 <= u < pend.len() && pend[u] ==> rk[v] <= rk[u]);
        assert(has_pending_pred(ns, pend, m));
        let u = choose|u: int| (0 <= u < pend.len() && pend[u]) && edge(ns, u, m);
        assert(rk[u] < rk[m]);
        assert(rk[m] <= rk[u]);
        assert(false);
    }
}

proof fn lemma_grow_path(ns: Seq<NodeView>, pend: Seq<bool>, v0: int, m: nat) -> (p: Seq<int>)
    requires
        stuck(ns, pend),
        0 <= v0 < pend.len(),
        pend[v0],
    ensures
        p.len() == m + 1,
        forall|i: int| 0 <= i < p.len() ==> 0 <= #[trigger] p[i] < pend.len() && pend[p[i]],
        forall|i: int| 0 <= i < m ==> edge(ns, p[i + 1], #[trigger] p[i]),
    decreases m,
{
    if m == 0 {
        seq![v0]
    } else {
        let q = lemma_grow_path(ns, pend, v0, (m - 1) as nat);
        let last = q[q.len() - 1];
        assert(has_pending_pred(ns, pend, last));
        let u = choose|u: int| (0 <= u < pend.len() && pend[u]) && edge(ns, u, last);
        q.push(u)
    }
}

proof fn lemma_pigeonhole(p: Seq<int>, bound: int)
    requires
        bound >= 0,
        forall|i: int| 0 <= i < p.len() ==> 0 <= #[trigger] p[i] < bound,
        p.len() > bound,
    ensures
        exists|i: int, j: int| 0 <= i < j < p.len() && p[i] == p[j],
{
    if forall|i: int, j: int|
        0 <= i < p.len() && 0 <= j < p.len() && i != j ==> #[trigger] p[i] != #[trigger] p[j] {
        assert(p.no_duplicates());
        p.unique_seq_to_set();
        assert forall|x: int| p.to_set().contains(x) implies set_int_range(0, bound).contains(
            x,
        ) by {
            let i = choose|i: int| 0 <= i < p.len() && p[i] == x;
        }
        lemma_int_range(0, bound);
        lemma_len_subset(p.to_set(), set_int_range(0, bound));
        assert(false);
    } else {
        let (i, j) = choose|i: int, j: int|
            0 <= i < p.len() && 0 <= j < p.len() && i != j && p[i] == p[j];
        if i < j {
            assert(0 <= i < j < p.len() && p[i] == p[j]);
        } else {
            assert(0 <= j < i < p.len() && p[j] == p[i]);
        }
    }
}

#[verifier::rlimit(30)]
proof fn lemma_stuck_has_cycle(ns: Seq<NodeView>, pend: Seq<bool>)
    requires
        stuck(ns, pend),
    ensures
        has_cycle(ns),
{
    let v0 = choose|v: int| 0 <= v < pend.len() && #[trigger] pend[v];
    let p = lemma_grow_path(ns, pend, v0, ns.len() as nat);
    lemma_pigeonhole(p, ns.len() as int);
    let (i, j) = choose|i: int, j: int| 0 <= i < j < p.len() && p[i] == p[j];
    let c = Seq::new((j - i) as nat, |k: int| p[j - k]);
    assert(c.len() == j - i);
    assert forall|k: int| 0 <= k < c.len() - 1 implies #[trigger] edge(ns, c[k], c[k + 1]) by {
        assert(c[k] == p[j - k]);
        assert(c[k + 1] == p[j - (k + 1)]);
        assert(edge(ns, p[(j - k - 1) + 1], p[j - k - 1]));
        assert((j - k - 1) + 1 == j - k);
    }
    assert(c[c.len() - 1] == p[j - (j - i - 1)]);
    assert(j - (j - i - 1) == i + 1);
    assert(edge(ns, p[i + 1], p[i]));
    assert(c[0] == p[j]);
    assert(edge(ns, c[c.len() - 1], c[0]));
    assert(is_cycle(ns, c));
}

/// How many entries of a boolean mask are set.
spec fn count_true(pend: Seq<bool>) -> nat
    decreases pend.len(),
{
    if pend.len() == 0 {
        0
    } else {
        count_true(pend.drop_last()) + if pend.last() {
            1nat
        } else {
            0nat
        }
    }
}

proof fn lemma_count_update_false(pend: Seq<bool>, v: int)
    requires
        0 <= v < pend.len(),
        pend[v],
    ensures
        count_true(pend.update(v, false)) < count_true(pend),
    decreases pend.len(),
{
    let updated = pend.update(v, false);
    if v == pend.len() - 1 {
        assert(updated.drop_last() =~= pend.drop_last());
    } else {
        assert(updated.drop_last() =~= pend.drop_last().update(v, false));
        lemma_count_update_false(pend.drop_last(), v);
    }
}

proof fn lemma_peel(ns: Seq<NodeView>, pend: Seq<bool>, rk: Seq<int>, step: int) -> (stalled: Seq<
    bool,
>)
    requires
        !schedulable(ns),
        pend.len() == ns.len(),
        rk.len() == ns.len(),
        forall|u: int| 0 <= u < pend.len() && !(#[trigger] pend[u]) ==> rk[u] < step,
        forall|v: int, u: int|
            0 <= v < pend.len() && !pend[v] && #[trigger] edge(ns, u, v) ==> !pend[u] && rk[u]
                < rk[v],
    ensures
        stuck(ns, stalled),
    decreases count_true(pend),
{
    if exists|v: int| 0 <= v < pend.len() && #[trigger] pend[v] {
        if forall|v: int|
            0 <= v < pend.len() && #[trigger] pend[v] ==> has_pending_pred(ns, pend, v) {
            pend
        } else {
            let v = choose|v: int|
                0 <= v < pend.len() && #[trigger] pend[v] && !has_pending_pred(ns, pend, v);
            let pend2 = pend.update(v, false);
            let rk2 = rk.update(v, step);
            assert forall|u: int| 0 <= u < pend2.len() && !(#[trigger] pend2[u]) implies rk2[u]
                < step + 1 by {}
            assert forall|w: int, u: int|
                0 <= w < pend2.len() && !pend2[w] && #[trigger] edge(ns, u, w) implies !pend2[u]
                && rk2[u] < rk2[w] by {
                if w == v {
                    // v was ready: no pending predecessor, so u was already
                    // settled with a rank below this step
                    assert(!pend[u]);
                } else {
                    assert(!pend[w]);
                    assert(!pend[u] && rk[u] < rk[w]);
                }
            }
            lemma_count_update_false(pend, v);
            lemma_peel(ns, pend2, rk2, step + 1)
        }
    } else {
        // everything settled: the recorded peel order ranks every edge
        // forward, so the graph was schedulable after all
        assert forall|u: int, v: int| #[trigger] edge(ns, u, v) implies rk[u] < rk[v] by {
            assert(!pend[v]);
        }
        assert(respects_edges(ns, rk));
        assert(false);
        pend
    }
}

/// The two spec-level characterizations of a buildable graph coincide:
/// a schedule exists exactly when the declared edges contain no cycle.
pub proof fn lemma_schedulable_iff_acyclic(ns: Seq<NodeView>)
    ensures
        schedulable(ns) <==> !has_cycle(ns),
{
    if has_cycle(ns) {
        let c = choose|c: Seq<int>| is_cycle(ns, c);
        lemma_cycle_unschedulable(ns, c);
    }
    if !schedulable(ns) {
        let stalled = lemma_peel(
            ns,
            Seq::new(ns.len(), |i: int| true),
            Seq::new(ns.len(), |i: int| 0),
            0,
        );
        lemma_stuck_has_cycle(ns, stalled);
    }
}

/// Within one sequence of pass indices, registration order is kept:
/// indices strictly increase.
pub open spec fn strictly_increasing(s: Seq<usize>) -> bool {
    forall|i: int, j: int| 0 <= i < j < s.len() ==> #[trigger] s[i] < #[trigger] s[j]
}

/// Whether node `v` appears in some batch.
pub open spec fn in_some_batch(bs: Seq<Seq<usize>>, v: usize) -> bool {
    exists|k: int| 0 <= k < bs.len() && #[trigger] bs[k].contains(v)
}

/// What makes a batching a correct schedule for `ns`: batches are
/// non-empty, keep registration order internally, partition the passes,
/// and every edge points from a strictly earlier batch to a strictly
/// later one - so no two passes with an order between them, and in
/// particular none with conflicting access to one slot along an edge,
/// share a batch.
pub open spec fn valid_batches(ns: Seq<NodeView>, bs: Seq<Seq<usize>>) -> bool {
    &&& forall|k: int, x: usize| 0 <= k < bs.len() && #[trigger] bs[k].contains(x) ==> x < ns.len()
    &&& forall|k: int| 0 <= k < bs.len() ==> (#[trigger] bs[k]).len() > 0
    &&& forall|k: int| 0 <= k < bs.len() ==> strictly_increasing(#[trigger] bs[k])
    &&& forall|v: usize| v < ns.len() ==> #[trigger] in_some_batch(bs, v)
    &&& forall|k1: int, k2: int, x: usize|
        0 <= k1 < bs.len() && 0 <= k2 < bs.len() && k1 != k2 && #[trigger] bs[k1].contains(x)
            ==> !(#[trigger] bs[k2].contains(x))
    &&& forall|k1: int, k2: int, x: usize, y: usize|
        #![trigger bs[k1].contains(x), bs[k2].contains(y)]
        0 <= k1 < bs.len() && 0 <= k2 < bs.len() && bs[k1].contains(x) && bs[k2].contains(y)
            && edge(ns, x as int, y as int) ==> k1 < k2
}

/// What pins the batching down to the one the scheduler produces: every
/// pass beyond the first batch has a predecessor in the batch directly
/// before it, so no pass could run any earlier.
pub open spec fn canonical_batches(ns: Seq<NodeView>, bs: Seq<Seq<usize>>) -> bool {
    forall|k: int, y: usize|
        1 <= k < bs.len() && #[trigger] bs[k].contains(y) ==> exists|x: usize|
            #[trigger] bs[k - 1].contains(x) && edge(ns, x as int, y as int)
}

/// The batch in which node `v` lies.
pub open spec fn batch_of(bs: Seq<Seq<usize>>, v: usize) -> int {
    choose|k: int| 0 <= k < bs.len() && bs[k].contains(v)
}

proof fn lemma_batch_of(ns: Seq<NodeView>, bs: Seq<Seq<usize>>, v: usize)
    requires
        valid_batches(ns, bs),
        v < ns.len(),
    ensures
        0 <= batch_of(bs, v) < bs.len(),
        bs[batch_of(bs, v)].contains(v),
        forall|k: int|
            0 <= k < bs.len() && #[trigger] bs[k].contains(v) ==> k == batch_of(bs, v),
{
    assert(in_some_batch(bs, v));
}

/// A correct batching is itself the witness that the graph is
/// schedulable: rank every pass by its batch.
pub proof fn lemma_valid_schedulable(ns: Seq<NodeView>, bs: Seq<Seq<usize>>)
    requires
        valid_batches(ns, bs),
        ns.len() <= usize::MAX,
    ensures
        schedulable(ns),
{
    let rk = Seq::new(ns.len(), |v: int| batch_of(bs, v as usize));
    assert forall|u: int, v: int| #[trigger] edge(ns, u, v) implies rk[u] < rk[v] by {
        let x = u as usize;
        let y = v as usize;
        lemma_batch_of(ns, bs, x);
        lemma_batch_of(ns, bs, y);
        assert(bs[batch_of(bs, x)].contains(x));
        assert(bs[batch_of(bs, y)].contains(y));
        assert(edge(ns, x as int, y as int));
    }
    assert(respects_edges(ns, rk));
}

#[verifier::rlimit(30)]
proof fn lemma_levels_agree(ns: Seq<NodeView>, b1: Seq<Seq<usize>>, b2: Seq<Seq<usize>>, k: int)
    requires
        valid_batches(ns, b1),
        canonical_batches(ns, b1),
        valid_batches(ns, b2),
        canonical_batches(ns, b2),
        k >= 0,
    ensures
        forall|v: usize|
            v < ns.len() && #[trigger] batch_of(b1, v) <= k ==> batch_of(b2, v) == batch_of(b1, v),
        forall|v: usize|
            v < ns.len() && #[trigger] batch_of(b2, v) <= k ==> batch_of(b1, v) == batch_of(b2, v),
    decreases k,
{
    if k > 0 {
        lemma_levels_agree(ns, b1, b2, k - 1);
    }
    assert forall|w: usize| w < ns.len() implies #[trigger] batch_of(b1, w) >= 0 by {
        lemma_batch_of(ns, b1, w);
    }
    assert forall|w: usize| w < ns.len() implies #[trigger] batch_of(b2, w) >= 0 by {
        lemma_batch_of(ns, b2, w);
    }
    assert forall|v: usize|
        v < ns.len() && #[trigger] batch_of(b1, v) <= k implies batch_of(b2, v) == batch_of(
        b1,
        v,
    ) by {
        lemma_level_step(ns, b1, b2, v, k);
    }
    assert forall|v: usize|
        v < ns.len() && #[trigger] batch_of(b2, v) <= k implies batch_of(b1, v) == batch_of(
        b2,
        v,
    ) by {
        lemma_level_step(ns, b2, b1, v, k);
    }
}

/// One direction of one induction step of `lemma_levels_agree`: if `v`
/// sits in batch `j <= k` of `b1` and the two batchings agree on all
/// levels below `k`, they agree on `v`.
proof fn lemma_level_step(
    ns: Seq<NodeView>,
    b1: Seq<Seq<usize>>,
    b2: Seq<Seq<usize>>,
    v: usize,
    k: int,
)
    requires
        valid_batches(ns, b1),
        canonical_batches(ns, b1),
        valid_batches(ns, b2),
        canonical_batches(ns, b2),
        k >= 0,
        v < ns.len(),
        batch_of(b1, v) <= k,
        forall|w: usize|
            w < ns.len() && #[trigger] batch_of(b1, w) <= k - 1 ==> batch_of(b2, w) == batch_of(
                b1,
                w,
            ),
        forall|w: usize|
            w < ns.len() && #[trigger] batch_of(b2, w) <= k - 1 ==> batch_of(b1, w) == batch_of(
                b2,
                w,
            ),
    ensures
        batch_of(b2, v) == batch_of(b1, v),
{
    lemma_batch_of(ns, b1, v);
    lemma_batch_of(ns, b2, v);
    let j = batch_of(b1, v);
    if j <= k - 1 {
    } else {
        // j == k exactly
        let m = batch_of(b2, v);
        if m <= k - 1 {
            // below-k levels agree, contradicting batch_of(b1, v) == k
            assert(batch_of(b1, v) == m);
            assert(false);
        }
        if m > k {
            // v has a predecessor in b2's previous batch; that predecessor
            // sits below level k in b1, hence in b2 too - but then it sits
            // in two different b2 batches at once
            assert(b2[m].contains(v));
            let x = choose|x: usize| #[trigger] b2[m - 1].contains(x) && edge(ns, x as int, v as int);
            assert(x < ns.len());
            lemma_batch_of(ns, b2, x);
            assert(batch_of(b2, x) == m - 1);
            lemma_batch_of(ns, b1, x);
            assert(b1[batch_of(b1, x)].contains(x));
            assert(b1[batch_of(b1, v)].contains(v));
            assert(batch_of(b1, x) < k);
            assert(batch_of(b2, x) == batch_of(b1, x));
            assert(false);
        }
    }
}

proof fn lemma_sorted_same_membership(s1: Seq<usize>, s2: Seq<usize>)
    requires
        strictly_increasing(s1),
        strictly_increasing(s2),
        forall|x: usize|
            #![trigger s1.contains(x)]
            #![trigger s2.contains(x)]
            s1.contains(x) <==> s2.contains(x),
    ensures
        s1 =~= s2,
    decreases s1.len(),
{
    if s1.len() == 0 {
        if s2.len() > 0 {
            assert(s2.contains(s2[0]));
            assert(false);
        }
    } else {
        assert(s1.contains(s1[0]));
        assert(s2.len() > 0) by {
            assert(s2.contains(s1[0]));
        }
        // the heads are the minima, and the minima agree
        assert(s2.contains(s1[0]));
        let i1 = choose|i: int| 0 <= i < s2.len() && s2[i] == s1[0];
        assert(s2[0] <= s2[i1]);
        assert(s2.contains(s2[0]));
        assert(s1.contains(s2[0]));
        let i2 = choose|i: int| 0 <= i < s1.len() && s1[i] == s2[0];
        assert(s1[0] <= s1[i2]);
        assert(s1[0] == s2[0]);
        // the tails carry the same membership: exactly the members above
        // the shared head
        let t1 = s1.subrange(1, s1.len() as int);
        let t2 = s2.subrange(1, s2.len() as int);
        assert(strictly_increasing(t1));
        assert(strictly_increasing(t2));
        assert forall|x: usize| #[trigger] t1.contains(x) implies t2.contains(x) by {
            let i = choose|i: int| 0 <= i < t1.len() && t1[i] == x;
            assert(s1[i + 1] == x);
            assert(s1[0] < x);
            assert(s1.contains(x));
            assert(s2.contains(x));
            let i3 = choose|i3: int| 0 <= i3 < s2.len() && s2[i3] == x;
            assert(i3 != 0);
            assert(t2[i3 - 1] == x);
        }
        assert forall|x: usize| #[trigger] t2.contains(x) implies t1.contains(x) by {
            let i = choose|i: int| 0 <= i < t2.len() && t2[i] == x;
            assert(s2[i + 1] == x);
            assert(s2[0] < x);
            assert(s2.contains(x));
            assert(s1.contains(x));
            let i3 = choose|i3: int| 0 <= i3 < s1.len() && s1[i3] == x;
            assert(i3 != 0);
            assert(t1[i3 - 1] == x);
        }
        lemma_sorted_same_membership(t1, t2);
        assert forall|i: int| 0 <= i < s1.len() implies s1[i] == s2[i] by {
            if i > 0 {
                assert(t1[i - 1] == t2[i - 1]);
            }
        }
    }
}

/// A fixed pass list admits exactly one correct canonical batching: any
/// two of them are equal, batch for batch and position for position. With
/// [`build_schedule`]'s contract this makes repeated builds of the same
/// graph produce identical schedules.
#[verifier::rlimit(30)]
pub proof fn lemma_schedule_deterministic(
    ns: Seq<NodeView>,
    b1: Seq<Seq<usize>>,
    b2: Seq<Seq<usize>>,
)
    requires
        valid_batches(ns, b1),
        canonical_batches(ns, b1),
        valid_batches(ns, b2),
        canonical_batches(ns, b2),
    ensures
        b1 == b2,
{
    let bound = b1.len() + b2.len();
    lemma_levels_agree(ns, b1, b2, bound as int);
    assert forall|k: int| 0 <= k < b1.len() implies b1[k] =~= b2[k] by {
        if k < b2.len() {
            assert forall|x: usize| #[trigger] b1[k].contains(x) implies b2[k].contains(x) by {
                lemma_batch_of(ns, b1, x);
                assert(batch_of(b1, x) == k);
                lemma_batch_of(ns, b2, x);
                assert(batch_of(b2, x) == k);
            }
            assert forall|x: usize| #[trigger] b2[k].contains(x) implies b1[k].contains(x) by {
                lemma_batch_of(ns, b2, x);
                assert(batch_of(b2, x) == k);
                lemma_batch_of(ns, b1, x);
                assert(batch_of(b1, x) == k);
            }
            lemma_sorted_same_membership(b1[k], b2[k]);
        } else {
            // a batch beyond b2's end would hold a pass whose b2 batch
            // agrees with k, impossible
            assert(b1[k].len() > 0);
            assert(b1[k].contains(b1[k][0]));
            let x = b1[k][0];
            lemma_batch_of(ns, b1, x);
            lemma_batch_of(ns, b2, x);
            assert(batch_of(b2, x) == k);
            assert(false);
        }
    }
    if b1.len() < b2.len() {
        let k = b1.len() as int;
        assert(b2[k].len() > 0);
        assert(b2[k].contains(b2[k][0]));
        let x = b2[k][0];
        lemma_batch_of(ns, b2, x);
        lemma_batch_of(ns, b1, x);
        assert(batch_of(b1, x) == k);
        assert(false);
    }
    if b1.len() > b2.len() {
        let k = b2.len() as int;
        assert(b1[k].len() > 0);
        assert(b1[k].contains(b1[k][0]));
        let x = b1[k][0];
        lemma_batch_of(ns, b1, x);
        lemma_batch_of(ns, b2, x);
        assert(batch_of(b2, x) == k);
        assert(false);
    }
    assert(b1 =~= b2);
}


proof fn lemma_chain_to(ns: Seq<NodeView>, bs: Seq<Seq<usize>>, k: int, y: usize) -> (ch: Seq<
    usize,
>)
    requires
        valid_batches(ns, bs),
        canonical_batches(ns, bs),
        0 <= k < bs.len(),
        bs[k].contains(y),
    ensures
        ch.len() == k + 1,
        ch[k] == y,
        forall|i: int| 0 <= i <= k ==> (#[trigger] bs[i]).contains(ch[i]),
        forall|i: int| 0 <= i < k ==> edge(ns, ch[i] as int, #[trigger] ch[i + 1] as int),
    decreases k,
{
    if k == 0 {
        seq![y]
    } else {
        let x = choose|x: usize| #[trigger] bs[k - 1].contains(x) && edge(ns, x as int, y as int);
        let ch = lemma_chain_to(ns, bs, k - 1, x);
        ch.push(y)
    }
}

proof fn lemma_chain_ranks(
    ns: Seq<NodeView>,
    other: Seq<Seq<usize>>,
    ch: Seq<usize>,
    i: int,
)
    requires
        valid_batches(ns, other),
        forall|n: int| 0 <= n < ch.len() ==> (#[trigger] ch[n]) < ns.len(),
        forall|n: int| 0 <= n < ch.len() - 1 ==> edge(ns, ch[n] as int, #[trigger] ch[n + 1] as int),
        0 <= i < ch.len(),
    ensures
        batch_of(other, ch[i]) >= i,
    decreases i,
{
    lemma_batch_of(ns, other, ch[i]);
    if i > 0 {
        lemma_chain_ranks(ns, other, ch, i - 1);
        lemma_batch_of(ns, other, ch[i - 1]);
        assert(edge(ns, ch[i - 1] as int, ch[i - 1 + 1] as int));
        assert(other[batch_of(other, ch[i - 1])].contains(ch[i - 1]));
        assert(other[batch_of(other, ch[i])].contains(ch[i]));
    }
}

/// The canonical batching is as short as a batching can be: no other
/// correct batching of the same passes uses fewer batches.
pub proof fn lemma_fewest_batches(ns: Seq<NodeView>, bs: Seq<Seq<usize>>, other: Seq<Seq<usize>>)
    requires
        valid_batches(ns, bs),
        canonical_batches(ns, bs),
        valid_batches(ns, other),
    ensures
        bs.len() <= other.len(),
{
    if bs.len() > 0 {
        let k = bs.len() - 1;
        assert(bs[k].len() > 0);
        assert(bs[k].contains(bs[k][0]));
        let ch = lemma_chain_to(ns, bs, k, bs[k][0]);
        assert forall|n: int| 0 <= n < ch.len() implies (#[trigger] ch[n]) < ns.len() by {
            assert(bs[n].contains(ch[n]));
        }
        lemma_chain_ranks(ns, other, ch, k);
        lemma_batch_of(ns, other, ch[k]);
    }
}

fn contains_id(v: &Vec<ResId>, x: ResId) -> (r: bool)
    ensures
        r == v@.contains(x),
{
    let mut i: usize = 0;
    while i < v.len()
        invariant
            i <= v@.len(),
            forall|j: int| 0 <= j < i ==> v@[j] != x,
        decreases v@.len() - i,
    {
        if v[i] == x {
            return true;
        }
        i = i + 1;
    }
    false
}

fn contains_name(v: &Vec<String>, x: &String) -> (r: bool)
    ensures
        r == v.deep_view().contains(x@),
{
    let mut i: usize = 0;
    while i < v.len()
        invariant
            i <= v@.len(),
            forall|j: int| 0 <= j < i ==> v.deep_view()[j] != x@,
        decreases v@.len() - i,
    {
        if v[i] == *x {
            assert(v.deep_view()[i as int] == x@);
            return true;
        }
        i = i + 1;
    }
    false
}

fn consumes_exec(n: &PassNode, x: ResId) -> (r: bool)
    ensures
        r == consumes_slot(n@, x),
{
    contains_id(&n.reads, x) || contains_id(&n.moves, x)
}

/// Decides `edge_between` for two declaration nodes.
fn edge_between_exec(a: &PassNode, b: &PassNode) -> (r: bool)
    ensures
        r == edge_between(a@, b@),
{
    let mut i: usize = 0;
    while i < a.writes.len()
        invariant
            i <= a.writes@.len(),
            forall|j: int| 0 <= j < i ==> !consumes_slot(b@, #[trigger] a.writes@[j]),
        decreases a.writes@.len() - i,
    {
        if consumes_exec(b, a.writes[i]) {
            assert(a@.writes.contains(a.writes@[i as int]));
            assert(data_edge(a@, b@));
            return true;
        }
        i = i + 1;
    }
    let mut i2: usize = 0;
    while i2 < a.results.len()
        invariant
            i2 <= a.results@.len(),
            forall|j: int| 0 <= j < i2 ==> !consumes_slot(b@, #[trigger] a.results@[j]),
        decreases a.results@.len() - i2,
    {
        if consumes_exec(b, a.results[i2]) {
            assert(a@.results.contains(a.results@[i2 as int]));
            assert(data_edge(a@, b@));
            return true;
        }
        i2 = i2 + 1;
    }
    if contains_name(&a.before, &b.name) {
        return true;
    }
    if contains_name(&b.after, &a.name) {
        return true;
    }
    proof {
        assert forall|r: ResId| #[trigger] writes_slot(a@, r) implies !consumes_slot(b@, r) by {
            if a@.writes.contains(r) {
                let j = choose|j: int| 0 <= j < a@.writes.len() && a@.writes[j] == r;
            } else {
                let j = choose|j: int| 0 <= j < a@.results.len() && a@.results[j] == r;
            }
        }
    }
    false
}


proof fn lemma_count_true_update_true(s: Seq<bool>, v: int)
    requires
        0 <= v < s.len(),
        !s[v],
    ensures
        count_true(s.update(v, true)) == count_true(s) + 1,
    decreases s.len(),
{
    let updated = s.update(v, true);
    if v == s.len() - 1 {
        assert(updated.drop_last() =~= s.drop_last());
    } else {
        assert(updated.drop_last() =~= s.drop_last().update(v, true));
        lemma_count_true_update_true(s.drop_last(), v);
    }
}

proof fn lemma_count_true_le_len(s: Seq<bool>)
    ensures
        count_true(s) <= s.len(),
    decreases s.len(),
{
    if s.len() > 0 {
        lemma_count_true_le_len(s.drop_last());
    }
}

proof fn lemma_count_true_all(s: Seq<bool>)
    requires
        forall|i: int| 0 <= i < s.len() ==> s[i],
    ensures
        count_true(s) == s.len(),
    decreases s.len(),
{
    if s.len() > 0 {
        lemma_count_true_all(s.drop_last());
    }
}

proof fn lemma_count_true_full(s: Seq<bool>, i: int)
    requires
        count_true(s) == s.len(),
        0 <= i < s.len(),
    ensures
        s[i],
    decreases s.len(),
{
    lemma_count_true_le_len(s.drop_last());
    if i < s.len() - 1 {
        lemma_count_true_full(s.drop_last(), i);
    }
}

/// Whether some predecessor of pass `v` is not placed yet.
fn has_unplaced_pred(nodes: &Vec<PassNode>, placed: &Vec<bool>, v: usize) -> (found: bool)
    requires
        placed@.len() == nodes@.len(),
        v < nodes@.len(),
    ensures
        found == exists|u: int|
            0 <= u < nodes@.len() && !placed@[u] && #[trigger] edge(
                nodes.deep_view(),
                u,
                v as int,
            ),
{
    let ghost ns = nodes.deep_view();
    let n = nodes.len();
    let mut u: usize = 0;
    while u < n
        invariant
            placed@.len() == nodes@.len(),
            v < nodes@.len(),
            n == nodes@.len(),
            ns == nodes.deep_view(),
            u <= n,
            forall|w: int| 0 <= w < u ==> !(!placed@[w] && #[trigger] edge(ns, w, v as int)),
        decreases n - u,
    {
        if !placed[u] && u != v {
            if edge_between_exec(&nodes[u], &nodes[v]) {
                assert(ns[u as int] == nodes@[u as int]@);
                assert(edge(ns, u as int, v as int));
                return true;
            }
        }
        u = u + 1;
    }
    false
}


proof fn lemma_count_true_none(s: Seq<bool>)
    requires
        forall|i: int| 0 <= i < s.len() ==> !s[i],
    ensures
        count_true(s) == 0,
    decreases s.len(),
{
    if s.len() > 0 {
        lemma_count_true_none(s.drop_last());
    }
}

/// Gathers, in registration order, every pass not placed yet whose
/// predecessors have all been placed.
fn collect_ready(nodes: &Vec<PassNode>, placed: &Vec<bool>) -> (current: Vec<usize>)
    requires
        placed@.len() == nodes@.len(),
    ensures
        strictly_increasing(current@),
        forall|j: int|
            0 <= j < current@.len() ==> (#[trigger] current@[j]) < nodes@.len()
                && !placed@[current@[j] as int],
        forall|j: int, u: int|
            0 <= j < current@.len() && 0 <= u < nodes@.len() && #[trigger] edge(
                nodes.deep_view(),
                u,
                current@[j] as int,
            ) ==> placed@[u],
        forall|x: usize|
            x < nodes@.len() && !placed@[x as int] && !(#[trigger] current@.contains(x))
                ==> exists|u: int|
                0 <= u < nodes@.len() && !placed@[u] && #[trigger] edge(
                    nodes.deep_view(),
                    u,
                    x as int,
                ),
{
    let ghost ns = nodes.deep_view();
    let n = nodes.len();
    let mut current: Vec<usize> = Vec::new();
    let mut v: usize = 0;
    while v < n
        invariant
            placed@.len() == nodes@.len(),
            n == nodes@.len(),
            ns == nodes.deep_view(),
            v <= n,
            strictly_increasing(current@),
            forall|j: int|
                0 <= j < current@.len() ==> (#[trigger] current@[j]) < v && !placed@[current@[j] as int],
            forall|j: int, u: int|
                0 <= j < current@.len() && 0 <= u < n && #[trigger] edge(
                    ns,
                    u,
                    current@[j] as int,
                ) ==> placed@[u],
            forall|x: usize|
                x < v && !placed@[x as int] && !(#[trigger] current@.contains(x)) ==> exists|u: int|
                    0 <= u < n && !placed@[u] && #[trigger] edge(ns, u, x as int),
        decreases n - v,
    {
        let ghost current_before = current@;
        if !placed[v] {
            if !has_unplaced_pred(nodes, placed, v) {
                current.push(v);
                proof {
                    assert(current@ == current_before.push(v));
                    assert forall|i: int, j: int| 0 <= i < j < current@.len() implies (
                    #[trigger] current@[i]) < (#[trigger] current@[j]) by {
                        if j < current@.len() - 1 {
                            assert(current_before[i] < current_before[j]);
                        } else {
                            assert(current@[i] == current_before[i]);
                        }
                    }
                    assert forall|x: usize|
                        x < v + 1 && !placed@[x as int] && !(#[trigger] current@.contains(x))
                        implies exists|u: int|
                        0 <= u < n && !placed@[u] && #[trigger] edge(ns, u, x as int) by {
                        assert(current@[current@.len() - 1] == v);
                        assert(current@.contains(v));
                        assert(x != v);
                        assert(!current_before.contains(x)) by {
                            if current_before.contains(x) {
                                let j = choose|j: int|
                                    0 <= j < current_before.len() && current_before[j] == x;
                                assert(current@[j] == x);
                            }
                        }
                    }
                }
            } else {
                proof {
                    assert forall|x: usize|
                        x < v + 1 && !placed@[x as int] && !(#[trigger] current@.contains(x))
                        implies exists|u: int|
                        0 <= u < n && !placed@[u] && #[trigger] edge(ns, u, x as int) by {}
                }
            }
        }
        v = v + 1;
    }
    current
}

/// Failure to compile a graph.
#[derive(Debug, Clone, Copy, PartialEq, Eq, Structural)]
pub enum GraphError {
    /// The declared edges form a cycle: an authoring error, surfaced at
    /// build time, never silently dropped or reordered.
    Cycle,
}

impl GraphError {
    /// A short description of the failure.
    pub fn message(&self) -> (m: String)
        ensures
            m@ == "the declared pass dependencies form a cycle"@,
    {
        "the declared pass dependencies form a cycle".to_owned()
    }
}

/// A compiled schedule: pass indices grouped into ordered batches. Built
/// once, immutable thereafter, walked every frame without recompilation.
pub struct Schedule {
    pub(crate) batches: Vec<Vec<usize>>,
}

impl View for Schedule {
    type V = Seq<Seq<usize>>;

    closed spec fn view(&self) -> Seq<Seq<usize>> {
        self.batches.deep_view()
    }
}

impl Schedule {
    /// Number of batches.
    pub fn batch_count(&self) -> (n: usize)
        ensures
            n == self@.len(),
    {
        self.batches.len()
    }

    /// The `k`-th batch: pass indices in registration order.
    pub fn batch(&self, k: usize) -> (b: &Vec<usize>)
        requires
            k < self@.len(),
        ensures
            b@ == self@[k as int],
    {
        proof {
            assert(self.batches@[k as int].deep_view() =~= self.batches@[k as int]@);
        }
        &self.batches[k]
    }
}

/// Compiles the declared edges into the canonical batching: repeatedly
/// gathers, in registration order, every pass whose predecessors have all
/// been placed. A round that gathers nothing means the remaining passes
/// all sit on cycles, and the build fails - exactly then.
#[verifier::rlimit(60)]
pub fn build_schedule(nodes: &Vec<PassNode>) -> (r: Result<Schedule, GraphError>)
    ensures
        match r {
            Ok(s) => valid_batches(nodes.deep_view(), s@) && canonical_batches(
                nodes.deep_view(),
                s@,
            ),
            Err(_) => !schedulable(nodes.deep_view()),
        },
        r is Ok <==> !has_cycle(nodes.deep_view()),
{
    let ghost ns = nodes.deep_view();
    let n = nodes.len();
    let mut placed: Vec<bool> = Vec::new();
    while placed.len() < n
        invariant
            placed@.len() <= n,
            forall|j: int| 0 <= j < placed@.len() ==> !placed@[j],
        decreases n - placed@.len(),
    {
        placed.push(false);
    }
    let mut placed_count: usize = 0;
    let mut batches: Vec<Vec<usize>> = Vec::new();
    proof {
        lemma_count_true_none(placed@);
    }
    while placed_count < n
        invariant
            n == nodes@.len(),
            ns == nodes.deep_view(),
            placed@.len() == n,
            placed_count == count_true(placed@),
            placed_count <= n,
            forall|k: int, x: usize|
                0 <= k < batches.deep_view().len() && (#[trigger] batches.deep_view()[k].contains(
                    x,
                )) ==> x < n && placed@[x as int],
            forall|v: usize| v < n && placed@[v as int] ==> in_some_batch(batches.deep_view(), v),
            forall|k: int|
                0 <= k < batches.deep_view().len() ==> (#[trigger] batches.deep_view()[k]).len()
                    > 0,
            forall|k: int|
                0 <= k < batches.deep_view().len() ==> strictly_increasing(
                    #[trigger] batches.deep_view()[k],
                ),
            forall|k1: int, k2: int, x: usize|
                0 <= k1 < batches.deep_view().len() && 0 <= k2 < batches.deep_view().len() && k1
                    != k2 && (#[trigger] batches.deep_view()[k1].contains(x)) ==> !(
                #[trigger] batches.deep_view()[k2].contains(x)),
            forall|k1: int, k2: int, x: usize, y: usize|
                #![trigger batches.deep_view()[k1].contains(x), batches.deep_view()[k2].contains(y)]
                0 <= k1 < batches.deep_view().len() && 0 <= k2 < batches.deep_view().len()
                    && batches.deep_view()[k1].contains(x) && batches.deep_view()[k2].contains(y)
                    && edge(ns, x as int, y as int) ==> k1 < k2,
            canonical_batches(ns, batches.deep_view()),
            forall|y: int, u: int|
                0 <= y < n && placed@[y] && #[trigger] edge(ns, u, y) ==> placed@[u],
            batches.deep_view().len() > 0 ==> forall|x: int|
                0 <= x < n && !(#[trigger] placed@[x]) ==> exists|u: int|
                    0 <= u < n && #[trigger] edge(ns, u, x) && (!placed@[u]
                        || batches.deep_view()[batches.deep_view().len() - 1].contains(u as usize)),
        decreases n - placed_count,
    {
        let ghost placed_before = placed@;
        let ghost bs_before = batches.deep_view();
        let current = collect_ready(nodes, &placed);
        if current.len() == 0 {
            proof {
                let pend = Seq::new(n as nat, |i: int| !placed@[i]);
                if forall|i: int| 0 <= i < placed@.len() ==> #[trigger] placed@[i] {
                    lemma_count_true_all(placed@);
                    assert(false);
                }
                let w = choose|i: int| 0 <= i < placed@.len() && !(#[trigger] placed@[i]);
                assert(pend[w]);
                assert forall|x: int| 0 <= x < pend.len() && #[trigger] pend[x] implies
                    has_pending_pred(ns, pend, x) by {
                    assert(!current@.contains(x as usize));
                    let u = choose|u: int|
                        0 <= u < n && !placed@[u] && #[trigger] edge(ns, u, x as int);
                    assert(pend[u]);
                }
                assert(stuck(ns, pend));
                lemma_stuck_unschedulable(ns, pend);
                lemma_stuck_has_cycle(ns, pend);
            }
            return Err(GraphError::Cycle);
        }
        let ghost entry_count = placed_count;
        let mut j: usize = 0;
        while j < current.len()
            invariant
                n == nodes@.len(),
                ns == nodes.deep_view(),
                placed@.len() == n,
                j <= current@.len(),
                strictly_increasing(current@),
                forall|jj: int|
                    0 <= jj < current@.len() ==> (#[trigger] current@[jj]) < n
                        && !placed_before[current@[jj] as int],
                placed_count == count_true(placed@),
                placed_count == entry_count + j,
                placed_count <= n,
                forall|i: int|
                    0 <= i < n ==> #[trigger] placed@[i] == (placed_before[i] || exists|jj: int|
                        0 <= jj < j && current@[jj] as int == i),
            decreases current@.len() - j,
        {
            let idx = current[j];
            proof {
                assert(!placed@[idx as int]) by {
                    if exists|jj: int| 0 <= jj < j && current@[jj] as int == idx as int {
                        let jj = choose|jj: int| 0 <= jj < j && current@[jj] as int == idx as int;
                        assert(current@[jj] < current@[j as int]);
                    }
                }
                lemma_count_true_update_true(placed@, idx as int);
                lemma_count_true_le_len(placed@.update(idx as int, true));
            }
            placed[idx] = true;
            placed_count = placed_count + 1;
            proof {
                assert forall|i: int| 0 <= i < n implies #[trigger] placed@[i] == (
                placed_before[i] || exists|jj: int|
                    0 <= jj < j + 1 && current@[jj] as int == i) by {
                    if i == idx as int {
                        assert(current@[j as int] as int == i);
                    } else {
                        if exists|jj: int| 0 <= jj < j + 1 && current@[jj] as int == i {
                            let jj = choose|jj: int|
                                0 <= jj < j + 1 && current@[jj] as int == i;
                            assert(jj < j);
                        }
                    }
                }
            }
            j = j + 1;
        }
        let ghost cur = current@;
        batches.push(current);
        proof {
            let bs_after = bs_before.push(cur);
            assert(batches.deep_view() =~~= bs_after);
            // membership in the new batching
            assert forall|k: int, x: usize|
                0 <= k < bs_after.len() && (#[trigger] bs_after[k].contains(x)) implies x < n
                && placed@[x as int] by {
                if k < bs_after.len() - 1 {
                    assert(bs_before[k].contains(x));
                    assert(placed_before[x as int]);
                } else {
                    let jj = choose|jj: int| 0 <= jj < cur.len() && cur[jj] == x;
                }
            }
            assert forall|v: usize| v < n && placed@[v as int] implies in_some_batch(
                bs_after,
                v,
            ) by {
                if placed_before[v as int] {
                    assert(in_some_batch(bs_before, v));
                    let k = choose|k: int| 0 <= k < bs_before.len() && bs_before[k].contains(v);
                    assert(bs_after[k].contains(v));
                } else {
                    let jj = choose|jj: int| 0 <= jj < cur.len() && cur[jj] as int
                        == v as int;
                    assert(bs_after[bs_after.len() - 1].contains(v));
                }
            }
            // freshly placed passes appear nowhere in the old batches
            assert forall|k1: int, k2: int, x: usize|
                0 <= k1 < bs_after.len() && 0 <= k2 < bs_after.len() && k1 != k2 && (
                #[trigger] bs_after[k1].contains(x)) implies !(#[trigger] bs_after[k2].contains(
                x,
            )) by {
                if k1 < bs_after.len() - 1 && k2 == bs_after.len() - 1 {
                    assert(placed_before[x as int]);
                    if bs_after[k2].contains(x) {
                        let jj = choose|jj: int| 0 <= jj < cur.len() && cur[jj] == x;
                    }
                } else if k1 == bs_after.len() - 1 && k2 < bs_after.len() - 1 {
                    if bs_after[k2].contains(x) {
                        assert(placed_before[x as int]);
                        let jj = choose|jj: int| 0 <= jj < cur.len() && cur[jj] == x;
                    }
                }
            }
            // every edge still points strictly forward
            assert forall|k1: int, k2: int, x: usize, y: usize|
                #![trigger bs_after[k1].contains(x), bs_after[k2].contains(y)]
                0 <= k1 < bs_after.len() && 0 <= k2 < bs_after.len() && bs_after[k1].contains(x)
                    && bs_after[k2].contains(y) && edge(ns, x as int, y as int) implies k1
                < k2 by {
                let last = bs_after.len() - 1;
                if k1 < last && k2 < last {
                    assert(bs_before[k1].contains(x) && bs_before[k2].contains(y));
                } else if k1 == last && k2 < last {
                    // a fresh pass cannot precede an already placed one:
                    // placed passes have placed predecessors
                    let jj = choose|jj: int| 0 <= jj < cur.len() && cur[jj] == x;
                    assert(bs_before[k2].contains(y));
                    assert(placed_before[y as int]);
                    assert(placed_before[x as int]);
                    assert(false);
                } else if k1 == last && k2 == last {
                    // two fresh passes cannot depend on each other: the
                    // consumer's predecessors were all placed earlier
                    let jj = choose|jj: int| 0 <= jj < cur.len() && cur[jj] == y;
                    let ii = choose|ii: int| 0 <= ii < cur.len() && cur[ii] == x;
                    assert(edge(ns, x as int, cur[jj] as int));
                    assert(placed_before[x as int]);
                    assert(false);
                }
            }
            // canonicity of the new batch: each fresh pass has a
            // predecessor in the previous batch
            assert forall|k: int, y: usize|
                1 <= k < bs_after.len() && #[trigger] bs_after[k].contains(y) implies exists|
                x: usize,
            |
                #[trigger] bs_after[k - 1].contains(x) && edge(ns, x as int, y as int) by {
                let last = bs_after.len() - 1;
                if k < last {
                    assert(bs_before[k].contains(y));
                    let x = choose|x: usize|
                        #[trigger] bs_before[k - 1].contains(x) && edge(ns, x as int, y as int);
                    assert(bs_after[k - 1].contains(x));
                } else {
                    let jj = choose|jj: int| 0 <= jj < cur.len() && cur[jj] == y;
                    assert(!placed_before[y as int]);
                    assert(bs_before.len() == k);
                    assert(bs_before.len() > 0);
                    let u = choose|u: int|
                        0 <= u < n && #[trigger] edge(ns, u, y as int) && (!placed_before[u]
                            || bs_before[bs_before.len() - 1].contains(u as usize));
                    assert(placed_before[u]);
                    assert(bs_before[k - 1].contains(u as usize));
                    assert(bs_after[k - 1].contains(u as usize));
                    assert(edge(ns, (u as usize) as int, y as int));
                }
            }
            // the placed set stays closed under predecessors
            assert forall|y: int, u: int|
                0 <= y < n && placed@[y] && #[trigger] edge(ns, u, y) implies placed@[u] by {
                if placed_before[y] {
                } else {
                    let jj = choose|jj: int| 0 <= jj < cur.len() && cur[jj] as int == y;
                    assert(placed_before[u]);
                }
            }
            // saturation: whatever is still pending has a predecessor that
            // is pending too or sits in the batch just placed
            assert forall|x: int| 0 <= x < n && !(#[trigger] placed@[x]) implies exists|u: int|
                0 <= u < n && #[trigger] edge(ns, u, x) && (!placed@[u] || bs_after[bs_after.len()
                    - 1].contains(u as usize)) by {
                assert(!placed_before[x]);
                assert(!cur.contains(x as usize));
                let u = choose|u: int|
                    0 <= u < n && !placed_before[u] && #[trigger] edge(ns, u, (x as usize) as int);
                if placed@[u] {
                    let jj = choose|jj: int| 0 <= jj < cur.len() && cur[jj] as int == u;
                    assert(bs_after[bs_after.len() - 1].contains(u as usize));
                }
            }
        }
    }
    proof {
        assert forall|i: int| 0 <= i < placed@.len() implies #[trigger] placed@[i] by {
            lemma_count_true_full(placed@, i);
        }
        assert forall|v: usize| v < ns.len() implies #[trigger] in_some_batch(
            batches.deep_view(),
            v,
        ) by {
            assert(placed@[v as int]);
        }
        assert(valid_batches(ns, batches.deep_view()));
        lemma_valid_schedulable(ns, batches.deep_view());
        lemma_schedulable_iff_acyclic(ns);
    }
    Ok(Schedule { batches })
}

} // verus!
