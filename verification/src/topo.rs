//! Kahn's algorithm on a graph whose nodes are `0..n` and whose edges are given, for each
//! node, as the list of its predecessors (an edge may occur more than once).
use vstd::prelude::*;

verus! {

/// Every predecessor named in `preds` is a node of the graph.
pub open spec fn preds_in_range(preds: Seq<Seq<usize>>) -> bool {
    forall|v: int, j: int|
        0 <= v < preds.len() && 0 <= j < preds[v].len() ==> #[trigger] preds[v][j] < preds.len()
}

/// `o` lists every node exactly once, and every predecessor of a node comes before it.
pub open spec fn is_index_order(preds: Seq<Seq<usize>>, o: Seq<usize>) -> bool {
    &&& o.len() == preds.len()
    &&& o.no_duplicates()
    &&& forall|i: int| 0 <= i < o.len() ==> #[trigger] o[i] < preds.len()
    &&& forall|i: int| 0 <= i < o.len() ==> #[trigger] preds_before(preds, o, i)
}

/// The nodes marked in `pend` form a non-empty set in which every node has a predecessor.
/// No order can then put every node after its predecessors.
pub open spec fn is_stuck(preds: Seq<Seq<usize>>, pend: Seq<bool>) -> bool {
    &&& pend.len() == preds.len()
    &&& exists|v: int| 0 <= v < pend.len() && #[trigger] pend[v]
    &&& forall|v: int|
        0 <= v < pend.len() && #[trigger] pend[v] ==> exists|j: int|
            0 <= j < preds[v].len() && pend[#[trigger] preds[v][j] as int]
}

/// `x` occurs in `q` before position `i`.
pub open spec fn occurs_before(q: Seq<usize>, i: int, x: usize) -> bool {
    exists|k: int| 0 <= k < i && #[trigger] q[k] == x
}

/// Every predecessor of `q[i]` occurs in `q` before position `i`.
pub open spec fn preds_before(ps: Seq<Seq<usize>>, q: Seq<usize>, i: int) -> bool {
    forall|j: int|
        0 <= j < ps[q[i] as int].len() ==> occurs_before(q, i, #[trigger] ps[q[i] as int][j])
}

proof fn lemma_preds_before_extend(ps: Seq<Seq<usize>>, q1: Seq<usize>, q2: Seq<usize>, i: int)
    requires
        0 <= i < q1.len() <= q2.len(),
        forall|k: int| 0 <= k < q1.len() ==> #[trigger] q2[k] == q1[k],
        preds_before(ps, q1, i),
    ensures
        preds_before(ps, q2, i),
{
    assert(q2[i] == q1[i]);
    assert forall|j: int| 0 <= j < ps[q2[i] as int].len() implies occurs_before(
        q2,
        i,
        #[trigger] ps[q2[i] as int][j],
    ) by {
        assert(occurs_before(q1, i, ps[q1[i] as int][j]));
        let k = choose|k: int| 0 <= k < i && #[trigger] q1[k] == ps[q1[i] as int][j];
        assert(q2[k] == q1[k]);
    }
}

proof fn lemma_push_contains(s: Seq<usize>, x: usize, y: usize)
    ensures
        s.push(x).contains(y) <==> (s.contains(y) || x == y),
{
    if s.push(x).contains(y) {
        let i = choose|i: int| 0 <= i < s.push(x).len() && s.push(x)[i] == y;
        if i < s.len() {
            assert(s[i] == y);
        }
    }
    if s.contains(y) {
        let i = choose|i: int| 0 <= i < s.len() && s[i] == y;
        assert(s.push(x)[i] == y);
    }
    if x == y {
        assert(s.push(x)[s.len() as int] == y);
    }
}

/// Entries of `s` whose node is not yet done.
pub open spec fn pending(s: Seq<usize>, done: Seq<bool>) -> nat
    decreases s.len(),
{
    if s.len() == 0 {
        0
    } else {
        pending(s.drop_last(), done) + if done[s.last() as int] {
            0nat
        } else {
            1nat
        }
    }
}

/// Entries of `s` equal to `u`.
pub open spec fn count_of(s: Seq<usize>, u: usize) -> nat
    decreases s.len(),
{
    if s.len() == 0 {
        0
    } else {
        count_of(s.drop_last(), u) + if s.last() == u {
            1nat
        } else {
            0nat
        }
    }
}

proof fn lemma_pending_none_done(s: Seq<usize>, done: Seq<bool>)
    requires
        forall|j: int| 0 <= j < s.len() ==> #[trigger] s[j] < done.len(),
        forall|v: int| 0 <= v < done.len() ==> !#[trigger] done[v],
    ensures
        pending(s, done) == s.len(),
    decreases s.len(),
{
    if s.len() > 0 {
        let t = s.drop_last();
        assert forall|j: int| 0 <= j < t.len() implies #[trigger] t[j] < done.len() by {
            assert(t[j] == s[j]);
        }
        lemma_pending_none_done(t, done);
    }
}

proof fn lemma_pending_update(s: Seq<usize>, done: Seq<bool>, u: usize)
    requires
        u < done.len(),
        !done[u as int],
        forall|j: int| 0 <= j < s.len() ==> #[trigger] s[j] < done.len(),
    ensures
        pending(s, done.update(u as int, true)) + count_of(s, u) == pending(s, done),
    decreases s.len(),
{
    if s.len() > 0 {
        let t = s.drop_last();
        assert forall|j: int| 0 <= j < t.len() implies #[trigger] t[j] < done.len() by {
            assert(t[j] == s[j]);
        }
        lemma_pending_update(t, done, u);
    }
}

proof fn lemma_pending_zero(s: Seq<usize>, done: Seq<bool>)
    requires
        forall|j: int| 0 <= j < s.len() ==> #[trigger] s[j] < done.len(),
    ensures
        pending(s, done) == 0 <==> forall|j: int| 0 <= j < s.len() ==> done[#[trigger] s[j] as int],
    decreases s.len(),
{
    if s.len() > 0 {
        let t = s.drop_last();
        assert forall|j: int| 0 <= j < t.len() implies #[trigger] t[j] < done.len() by {
            assert(t[j] == s[j]);
        }
        lemma_pending_zero(t, done);
        if pending(s, done) == 0 {
            assert forall|j: int| 0 <= j < s.len() implies done[#[trigger] s[j] as int] by {
                if j < t.len() {
                    assert(t[j] == s[j]);
                }
            }
        }
        if forall|j: int| 0 <= j < s.len() ==> done[#[trigger] s[j] as int] {
            assert forall|j: int| 0 <= j < t.len() implies done[#[trigger] t[j] as int] by {
                assert(t[j] == s[j]);
            }
            assert(done[s[s.len() - 1] as int]);
        }
    }
}

proof fn lemma_count_prefix(s: Seq<usize>, u: usize, j: int)
    requires
        0 <= j <= s.len(),
    ensures
        count_of(s.take(j), u) <= count_of(s, u),
    decreases s.len() - j,
{
    if j < s.len() {
        lemma_count_prefix(s, u, j + 1);
        assert(s.take(j + 1).drop_last() =~= s.take(j));
    } else {
        assert(s.take(j) =~= s);
    }
}

/// A sequence of distinct values below `n` has at most `n` entries, and fewer when it
/// misses one of them.
pub proof fn lemma_pigeonhole(q: Seq<usize>, n: nat, missing: Option<usize>)
    requires
        n <= usize::MAX,
        q.no_duplicates(),
        forall|i: int| 0 <= i < q.len() ==> #[trigger] q[i] < n,
        missing matches Some(m) ==> m < n && !q.contains(m),
    ensures
        q.len() + (if missing is Some {
            1int
        } else {
            0int
        }) <= n,
    decreases n,
{
    if n == 0 {
        if q.len() > 0 {
            assert(q[0] < n);
        }
    } else {
        let top = (n - 1) as usize;
        if q.contains(top) {
            let t = choose|t: int| 0 <= t < q.len() && q[t] == top;
            let r = q.remove(t);
            assert forall|i: int| 0 <= i < r.len() implies #[trigger] r[i] < (n - 1) as nat by {
                if i < t {
                    assert(r[i] == q[i]);
                } else {
                    assert(r[i] == q[i + 1]);
                }
            }
            assert(r.no_duplicates()) by {
                assert forall|a: int, b: int| 0 <= a < r.len() && 0 <= b < r.len() && a != b implies r[a]
                    != r[b] by {
                    let a2 = if a < t {
                        a
                    } else {
                        a + 1
                    };
                    let b2 = if b < t {
                        b
                    } else {
                        b + 1
                    };
                    assert(r[a] == q[a2]);
                    assert(r[b] == q[b2]);
                }
            }
            if let Some(m) = missing {
                assert(m != top);
                assert(!r.contains(m)) by {
                    if r.contains(m) {
                        let i = choose|i: int| 0 <= i < r.len() && r[i] == m;
                        if i < t {
                            assert(q[i] == m);
                        } else {
                            assert(q[i + 1] == m);
                        }
                    }
                }
            }
            lemma_pigeonhole(r, (n - 1) as nat, missing);
        } else {
            assert forall|i: int| 0 <= i < q.len() implies #[trigger] q[i] < (n - 1) as nat by {
                assert(q[i] != top);
            }
            let m2 = match missing {
                Some(m) => if m == top {
                    None
                } else {
                    Some(m)
                },
                None => None,
            };
            lemma_pigeonhole(q, (n - 1) as nat, m2);
        }
    }
}

/// Orders the nodes so that each comes after all of its predecessors, or, when no such
/// order exists, returns `None` together with nothing else: the `ensures` names the set of
/// nodes that stopped the ordering.
#[verifier::rlimit(60)]
pub fn kahn_order(preds: &Vec<Vec<usize>>) -> (r: (Option<Vec<usize>>, Ghost<Seq<bool>>))
    requires
        preds_in_range(preds@.map_values(|p: Vec<usize>| p@)),
    ensures
        ({
            let ps = preds@.map_values(|p: Vec<usize>| p@);
            &&& r.0 matches Some(o) ==> is_index_order(ps, o@)
            &&& r.0 is None ==> is_stuck(ps, r.1@)
        }),
{
    let ghost ps = preds@.map_values(|p: Vec<usize>| p@);
    let n = preds.len();
    let mut indeg: Vec<usize> = Vec::new();
    let mut queued: Vec<bool> = Vec::new();
    let mut queue: Vec<usize> = Vec::new();
    let ghost done: Seq<bool> = Seq::new(n as nat, |i: int| false);
    let mut v: usize = 0;
    while v < n
        invariant
            n == preds.len(),
            ps == preds@.map_values(|p: Vec<usize>| p@),
            ps.len() == n,
            preds_in_range(ps),
            done.len() == n,
            forall|w: int| 0 <= w < n ==> !#[trigger] done[w],
            v <= n,
            indeg.len() == v,
            queued.len() == v,
            forall|w: int| 0 <= w < v ==> #[trigger] indeg[w] == pending(ps[w], done),
            forall|w: int| 0 <= w < v ==> (#[trigger] queued[w] <==> queue@.contains(w as usize)),
            forall|w: int| 0 <= w < v ==> (!#[trigger] queued[w] ==> indeg[w] > 0),
            forall|w: int| 0 <= w < v ==> (#[trigger] queued[w] ==> indeg[w] == 0),
            forall|i: int| 0 <= i < queue.len() ==> #[trigger] queue@[i] < v,
            queue@.no_duplicates(),
        decreases n - v,
    {
        proof {
            assert(ps[v as int] == preds@[v as int]@);
            lemma_pending_none_done(ps[v as int], done);
        }
        let d = preds[v].len();
        indeg.push(d);
        let ghost q0 = queue@;
        if d == 0 {
            queue.push(v);
            queued.push(true);
            proof {
                assert forall|w: int| 0 <= w < v + 1 implies (#[trigger] queued[w] <==> queue@.contains(
                    w as usize,
                )) by {
                    lemma_push_contains(q0, v, w as usize);
                }
                assert(queue@.no_duplicates()) by {
                    assert(!q0.contains(v)) by {
                        if q0.contains(v) {
                            let i = choose|i: int| 0 <= i < q0.len() && q0[i] == v;
                        }
                    }
                }
            }
        } else {
            queued.push(false);
            assert(!queue@.contains(v)) by {
                if queue@.contains(v) {
                    let i = choose|i: int| 0 <= i < queue.len() && queue@[i] == v;
                    assert(queue@[i] < v);
                }
            }
        }
        v = v + 1;
    }
    let mut head: usize = 0;
    while head < queue.len()
        invariant
            n == preds.len(),
            ps == preds@.map_values(|p: Vec<usize>| p@),
            ps.len() == n,
            preds_in_range(ps),
            done.len() == n,
            indeg.len() == n,
            queued.len() == n,
            head <= queue.len(),
            forall|i: int| 0 <= i < queue.len() ==> #[trigger] queue@[i] < n,
            queue@.no_duplicates(),
            forall|w: int| 0 <= w < n ==> (#[trigger] queued[w] <==> queue@.contains(w as usize)),
            forall|w: int|
                0 <= w < n ==> (#[trigger] done[w] <==> exists|i: int|
                    0 <= i < head && queue@[i] == w),
            forall|w: int| 0 <= w < n ==> #[trigger] indeg[w] == pending(ps[w], done),
            forall|w: int| 0 <= w < n ==> (!#[trigger] queued[w] ==> indeg[w] > 0),
            forall|w: int| 0 <= w < n ==> (#[trigger] queued[w] ==> indeg[w] == 0),
            forall|i: int| 0 <= i < head ==> #[trigger] preds_before(ps, queue@, i),
        decreases n - head,
    {
        proof {
            lemma_pigeonhole(queue@, n as nat, None);
        }
        let u = queue[head];
        let ghost old_done = done;
        proof {
            assert(queued[u as int]);
            assert(indeg[u as int] == 0);
            assert(ps[u as int] == preds@[u as int]@);
            assert forall|j: int| 0 <= j < ps[u as int].len() implies #[trigger] ps[u as int][j]
                < done.len() by {}
            lemma_pending_zero(ps[u as int], done);
            assert forall|j: int| 0 <= j < ps[queue@[head as int] as int].len() implies occurs_before(
                queue@,
                head as int,
                #[trigger] ps[queue@[head as int] as int][j],
            ) by {
                let p = ps[u as int][j];
                assert(done[p as int]);
                let k = choose|k: int| 0 <= k < head && queue@[k] == p;
                assert(queue@[k] == p);
            }
            assert(preds_before(ps, queue@, head as int));
            assert(!done[u as int]) by {
                if done[u as int] {
                    let i = choose|i: int| 0 <= i < head && queue@[i] == u;
                    assert(queue@[head as int] == u);
                }
            }
            done = done.update(u as int, true);
        }
        head = head + 1;
        let ghost q_before = queue@;
        let mut w: usize = 0;
        while w < n
            invariant
                n == preds.len(),
                ps == preds@.map_values(|p: Vec<usize>| p@),
                ps.len() == n,
                preds_in_range(ps),
                u < n,
                !old_done[u as int],
                old_done.len() == n,
                done == old_done.update(u as int, true),
                indeg.len() == n,
                queued.len() == n,
                w <= n,
                head <= q_before.len(),
                forall|i: int| 0 <= i < head ==> #[trigger] preds_before(ps, q_before, i),
                q_before.len() <= queue.len(),
                forall|i: int| 0 <= i < q_before.len() ==> queue@[i] == #[trigger] q_before[i],
                forall|i: int| 0 <= i < queue.len() ==> #[trigger] queue@[i] < n,
                queue@.no_duplicates(),
                forall|w2: int| 0 <= w2 < n ==> (#[trigger] queued[w2] <==> queue@.contains(w2 as usize)),
                forall|w2: int| 0 <= w2 < w ==> #[trigger] indeg[w2] == pending(ps[w2], done),
                forall|w2: int| w <= w2 < n ==> #[trigger] indeg[w2] == pending(ps[w2], old_done),
                forall|w2: int| 0 <= w2 < n ==> (!#[trigger] queued[w2] ==> indeg[w2] > 0),
                forall|w2: int| 0 <= w2 < n ==> (#[trigger] queued[w2] ==> indeg[w2] == 0),
            decreases n - w,
        {
            let pv = &preds[w];
            proof {
                assert(ps[w as int] == pv@);
                assert forall|j: int| 0 <= j < pv@.len() implies #[trigger] pv@[j] < old_done.len() by {
                    assert(ps[w as int][j] == pv@[j]);
                }
                lemma_pending_update(pv@, old_done, u);
            }
            let ghost indeg_before = indeg@;
            let mut j: usize = 0;
            while j < pv.len()
                invariant
                    pv@ == ps[w as int],
                    w < n,
                    indeg.len() == n,
                    j <= pv.len(),
                    indeg[w as int] + count_of(pv@.take(j as int), u) == pending(pv@, old_done),
                    pending(pv@, done) + count_of(pv@, u) == pending(pv@, old_done),
                    forall|w2: int| 0 <= w2 < n && w2 != w ==> #[trigger] indeg@[w2] == indeg_before[w2],
                    indeg_before.len() == n,
                decreases pv.len() - j,
            {
                proof {
                    assert(pv@.take(j + 1).drop_last() =~= pv@.take(j as int));
                    lemma_count_prefix(pv@, u, j + 1);
                }
                if pv[j] == u {
                    indeg.set(w, indeg[w] - 1);
                }
                j = j + 1;
            }
            proof {
                assert(pv@.take(pv.len() as int) =~= pv@);
            }
            if indeg[w] == 0 && !queued[w] {
                let ghost q1 = queue@;
                assert(!queue@.contains(w)) by {}
                queue.push(w);
                queued.set(w, true);
                proof {
                    assert forall|w2: int| 0 <= w2 < n implies (#[trigger] queued[w2]
                        <==> queue@.contains(w2 as usize)) by {
                        lemma_push_contains(q1, w, w2 as usize);
                    }
                }
            }
            w = w + 1;
        }
        proof {
            assert forall|x: int| 0 <= x < n implies (#[trigger] done[x] <==> exists|i: int|
                0 <= i < head && queue@[i] == x) by {
                if x == u {
                    assert(queue@[head - 1] == u);
                } else {
                    if exists|i: int| 0 <= i < head && queue@[i] == x {
                        let i = choose|i: int| 0 <= i < head && queue@[i] == x;
                        assert(i < head - 1);
                        assert(queue@[i] == q_before[i]);
                    }
                    if old_done[x] {
                        let i = choose|i: int| 0 <= i < head - 1 && q_before[i] == x;
                        assert(queue@[i] == q_before[i]);
                    }
                }
            }
            assert forall|i: int| 0 <= i < head implies #[trigger] preds_before(ps, queue@, i) by {
                lemma_preds_before_extend(ps, q_before, queue@, i);
            }
        }
    }
    proof {
        lemma_pigeonhole(queue@, n as nat, None);
    }
    if queue.len() == n {
        (Some(queue), Ghost(Seq::new(n as nat, |i: int| false)))
    } else {
        let ghost pend = Seq::new(n as nat, |i: int| !done[i]);
        proof {
            assert(exists|m: usize| m < n && !#[trigger] queue@.contains(m)) by {
                if forall|m: usize| m < n ==> #[trigger] queue@.contains(m) {
                    assert(false) by {
                        // every node is queued, so the queue has `n` distinct entries
                        assert(queue.len() < n);
                        lemma_all_present(queue@, n as nat);
                    }
                }
            }
            let m = choose|m: usize| m < n && !#[trigger] queue@.contains(m);
            assert(pend[m as int]) by {
                if done[m as int] {
                    let i = choose|i: int| 0 <= i < head && queue@[i] == m;
                }
            }
            assert forall|x: int| 0 <= x < pend.len() && #[trigger] pend[x] implies exists|j: int|
                0 <= j < ps[x].len() && pend[#[trigger] ps[x][j] as int] by {
                assert(!queued[x]) by {
                    if queued[x] {
                        let i = choose|i: int| 0 <= i < queue.len() && queue@[i] == x;
                    }
                }
                assert(ps[x] == preds@[x]@);
                assert forall|j: int| 0 <= j < ps[x].len() implies #[trigger] ps[x][j] < done.len() by {}
                lemma_pending_zero(ps[x], done);
                let j = choose|j: int| 0 <= j < ps[x].len() && !done[ps[x][j] as int];
                assert(pend[ps[x][j] as int]);
            }
        }
        (None, Ghost(pend))
    }
}

/// A sequence of distinct values below `n` that holds every value below `n` has `n` entries.
proof fn lemma_all_present(q: Seq<usize>, n: nat)
    requires
        n <= usize::MAX,
        q.no_duplicates(),
        forall|i: int| 0 <= i < q.len() ==> #[trigger] q[i] < n,
        forall|m: usize| m < n ==> #[trigger] q.contains(m),
    ensures
        q.len() >= n,
    decreases n,
{
    if n > 0 {
        let top = (n - 1) as usize;
        assert(q.contains(top));
        let t = choose|t: int| 0 <= t < q.len() && q[t] == top;
        let r = q.remove(t);
        assert(r.no_duplicates()) by {
            assert forall|a: int, b: int| 0 <= a < r.len() && 0 <= b < r.len() && a != b implies r[a]
                != r[b] by {
                let a2 = if a < t {
                    a
                } else {
                    a + 1
                };
                let b2 = if b < t {
                    b
                } else {
                    b + 1
                };
                assert(r[a] == q[a2]);
                assert(r[b] == q[b2]);
            }
        }
        assert forall|i: int| 0 <= i < r.len() implies #[trigger] r[i] < (n - 1) as nat by {
            if i < t {
                assert(r[i] == q[i]);
            } else {
                assert(r[i] == q[i + 1]);
            }
        }
        assert forall|m: usize| m < n - 1 implies #[trigger] r.contains(m) by {
            assert(q.contains(m));
            let i = choose|i: int| 0 <= i < q.len() && q[i] == m;
            assert(m != top);
            if i < t {
                assert(r[i] == q[i]);
            } else {
                assert(i != t);
                assert(r[i - 1] == q[i]);
            }
        }
        lemma_all_present(r, (n - 1) as nat);
    }
}

} // verus!
