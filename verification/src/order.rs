//! Acyclicity of a directed graph on numbered nodes, decided by Kahn's algorithm.

use vstd::prelude::*;

verus! {

/// `rank` strictly increases along every edge.
pub open spec fn ranks_edges(edges: Seq<(usize, usize)>, rank: spec_fn(int) -> int) -> bool {
    forall|k: int|
        #![trigger edges[k]]
        0 <= k < edges.len() ==> rank(edges[k].0 as int) < rank(edges[k].1 as int)
}

/// Some ranking of the nodes increases along every edge: the graph has a topological
/// order, so it has no cycle.
pub open spec fn topologically_orderable(edges: Seq<(usize, usize)>) -> bool {
    exists|rank: spec_fn(int) -> int| ranks_edges(edges, rank)
}

/// Edges among the first `k` that enter `v` from a node not yet visited.
pub open spec fn pending(edges: Seq<(usize, usize)>, vis: Seq<bool>, v: int, k: int) -> nat
    decreases k,
{
    if k <= 0 {
        0
    } else {
        pending(edges, vis, v, k - 1) + if edges[k - 1].1 == v && !vis[edges[k - 1].0 as int] {
            1nat
        } else {
            0nat
        }
    }
}

/// Edges among the first `k` that go from `u` to `v`.
pub open spec fn between(edges: Seq<(usize, usize)>, u: int, v: int, k: int) -> nat
    decreases k,
{
    if k <= 0 {
        0
    } else {
        between(edges, u, v, k - 1) + if edges[k - 1].0 == u && edges[k - 1].1 == v {
            1nat
        } else {
            0nat
        }
    }
}

/// Number of visited nodes among the first `n`.
pub open spec fn visited_count(vis: Seq<bool>, n: int) -> nat
    decreases n,
{
    if n <= 0 {
        0
    } else {
        visited_count(vis, n - 1) + if vis[n - 1] {
            1nat
        } else {
            0nat
        }
    }
}

/// Visiting `u` removes exactly its edges from the pending counts.
proof fn lemma_pending_visit(edges: Seq<(usize, usize)>, vis: Seq<bool>, u: int, v: int, k: int)
    requires
        0 <= u < vis.len(),
        !vis[u],
        0 <= k <= edges.len(),
        forall|j: int| 0 <= j < edges.len() ==> (#[trigger] edges[j]).0 < vis.len(),
    ensures
        pending(edges, vis, v, k) == pending(edges, vis.update(u, true), v, k) + between(
            edges,
            u,
            v,
            k,
        ),
    decreases k,
{
    if k > 0 {
        lemma_pending_visit(edges, vis, u, v, k - 1);
        let e = edges[k - 1];
        assert(e.0 < vis.len());
    }
}

/// A pending count never exceeds the number of edges counted.
proof fn lemma_pending_le(edges: Seq<(usize, usize)>, vis: Seq<bool>, v: int, k: int)
    requires
        0 <= k,
    ensures
        pending(edges, vis, v, k) <= k,
    decreases k,
{
    if k > 0 {
        lemma_pending_le(edges, vis, v, k - 1);
    }
}

/// A positive pending count has an edge from an unvisited node behind it.
proof fn lemma_pending_witness(edges: Seq<(usize, usize)>, vis: Seq<bool>, v: int, k: int)
    requires
        0 <= k <= edges.len(),
        pending(edges, vis, v, k) > 0,
    ensures
        exists|j: int| 0 <= j < k && edges[j].1 == v && !vis[edges[j].0 as int],
    decreases k,
{
    if pending(edges, vis, v, k - 1) > 0 {
        lemma_pending_witness(edges, vis, v, k - 1);
    }
}

/// A zero pending count means every edge into `v` comes from a visited node.
proof fn lemma_pending_zero(edges: Seq<(usize, usize)>, vis: Seq<bool>, v: int, k: int)
    requires
        0 <= k <= edges.len(),
        pending(edges, vis, v, k) == 0,
    ensures
        forall|j: int| 0 <= j < k && edges[j].1 == v ==> vis[edges[j].0 as int],
    decreases k,
{
    if k > 0 {
        lemma_pending_zero(edges, vis, v, k - 1);
    }
}

/// When every edge into `v` comes from a visited node, nothing is pending.
proof fn lemma_pending_none(edges: Seq<(usize, usize)>, vis: Seq<bool>, v: int, k: int)
    requires
        0 <= k <= edges.len(),
        forall|j: int| 0 <= j < k && edges[j].1 == v ==> vis[edges[j].0 as int],
    ensures
        pending(edges, vis, v, k) == 0,
    decreases k,
{
    if k > 0 {
        lemma_pending_none(edges, vis, v, k - 1);
    }
}

/// Counting more edges counts at least as many from `u` to `v`.
proof fn lemma_between_mono(edges: Seq<(usize, usize)>, u: int, v: int, j: int, k: int)
    requires
        0 <= j <= k,
    ensures
        between(edges, u, v, j) <= between(edges, u, v, k),
    decreases k - j,
{
    if j < k {
        lemma_between_mono(edges, u, v, j, k - 1);
    }
}

/// Marking an unvisited node adds one to the visited count.
proof fn lemma_visited_count_update(vis: Seq<bool>, u: int, n: int)
    requires
        0 <= u < vis.len(),
        0 <= n <= vis.len(),
        !vis[u],
    ensures
        visited_count(vis.update(u, true), n) == visited_count(vis, n) + if u < n {
            1nat
        } else {
            0nat
        },
    decreases n,
{
    if n > 0 {
        lemma_visited_count_update(vis, u, n - 1);
    }
}

/// With nothing visited, the count is zero.
proof fn lemma_visited_count_none(vis: Seq<bool>, n: int)
    requires
        0 <= n <= vis.len(),
        forall|v: int| 0 <= v < n ==> !vis[v],
    ensures
        visited_count(vis, n) == 0,
    decreases n,
{
    if n > 0 {
        lemma_visited_count_none(vis, n - 1);
    }
}

/// The visited count is at most `n`, and equals `n` only when all are visited.
proof fn lemma_visited_count_full(vis: Seq<bool>, n: int)
    requires
        0 <= n <= vis.len(),
    ensures
        visited_count(vis, n) <= n,
        visited_count(vis, n) == n ==> forall|v: int| 0 <= v < n ==> vis[v],
        visited_count(vis, n) < n ==> exists|v: int| 0 <= v < n && !vis[v],
    decreases n,
{
    if n > 0 {
        lemma_visited_count_full(vis, n - 1);
        if visited_count(vis, n) == n {
            assert forall|v: int| 0 <= v < n implies vis[v] by {
                if v < n - 1 {
                } else {
                }
            }
        }
    }
}

/// Among the unvisited nodes below `n`, one has the least rank.
proof fn lemma_least_unvisited(vis: Seq<bool>, n: int, rank: spec_fn(int) -> int) -> (m: int)
    requires
        0 <= n <= vis.len(),
        exists|v: int| 0 <= v < n && !vis[v],
    ensures
        0 <= m < n,
        !vis[m],
        forall|w: int| 0 <= w < n && !vis[w] ==> rank(m) <= rank(w),
    decreases n,
{
    if exists|v: int| 0 <= v < n - 1 && !vis[v] {
        let m0 = lemma_least_unvisited(vis, n - 1, rank);
        if !vis[n - 1] && rank(n - 1) < rank(m0) {
            n - 1
        } else {
            m0
        }
    } else {
        n - 1
    }
}

/// Decides whether the graph on nodes `0..n` with these edges has no cycle, by
/// repeatedly visiting a node whose incoming edges all come from visited nodes.
pub fn has_topological_order(n: usize, edges: &Vec<(usize, usize)>) -> (r: bool)
    requires
        forall|k: int| 0 <= k < edges@.len() ==> (#[trigger] edges@[k]).0 < n && edges@[k].1 < n,
    ensures
        r == topologically_orderable(edges@),
{
    let m = edges.len();
    let ghost es = edges@;
    let mut indeg: Vec<usize> = Vec::new();
    let mut vis: Vec<bool> = Vec::new();
    let mut i: usize = 0;
    while i < n
        invariant
            i <= n,
            indeg@.len() == i,
            vis@.len() == i,
            forall|v: int| 0 <= v < i ==> indeg@[v] == 0 && !vis@[v],
        decreases n - i,
    {
        indeg.push(0);
        vis.push(false);
        i = i + 1;
    }
    let mut k: usize = 0;
    while k < m
        invariant
            m == es.len(),
            es == edges@,
            forall|j: int| 0 <= j < es.len() ==> (#[trigger] es[j]).0 < n && es[j].1 < n,
            k <= m,
            indeg@.len() == n,
            vis@.len() == n,
            forall|v: int| 0 <= v < n ==> !vis@[v],
            forall|v: int| 0 <= v < n ==> indeg@[v] == pending(es, vis@, v, k as int),
        decreases m - k,
    {
        let t = edges[k].1;
        proof {
            lemma_pending_le(es, vis@, t as int, k as int);
            assert(es[k as int].0 < n);
        }
        let d = indeg[t];
        indeg.set(t, d + 1);
        proof {
            assert forall|v: int| 0 <= v < n implies indeg@[v] == pending(es, vis@, v, k + 1) by {
                assert(es[k as int].0 < n);
            }
        }
        k = k + 1;
    }
    let mut ready: Vec<usize> = Vec::new();
    let mut v: usize = 0;
    while v < n
        invariant
            v <= n,
            indeg@.len() == n,
            vis@.len() == n,
            forall|w: int| 0 <= w < n ==> !vis@[w],
            ready@.no_duplicates(),
            forall|j: int| 0 <= j < ready@.len() ==> #[trigger] ready@[j] < v && indeg@[ready@[j] as int] == 0,
            forall|w: int| 0 <= w < v && indeg@[w] == 0 ==> ready@.contains(w as usize),
        decreases n - v,
    {
        let ghost before = ready@;
        if indeg[v] == 0 {
            assert(!ready@.contains(v));
            ready.push(v);
            assert(ready@[ready@.len() - 1] == v);
        }
        assert forall|w: int| 0 <= w < v + 1 && indeg@[w] == 0 implies ready@.contains(w as usize) by {
            if w < v {
                let j = choose|j: int| 0 <= j < before.len() && before[j] == w as usize;
                assert(ready@[j] == w as usize);
            } else {
                assert(ready@[ready@.len() - 1] == v);
            }
        }
        v = v + 1;
    }
    let mut count: usize = 0;
    let ghost mut pos: Seq<int> = Seq::new(n as nat, |i: int| 0);
    proof {
        lemma_visited_count_none(vis@, n as int);
    }
    loop
        invariant
            m == es.len(),
            es == edges@,
            forall|j: int| 0 <= j < es.len() ==> (#[trigger] es[j]).0 < n && es[j].1 < n,
            indeg@.len() == n,
            vis@.len() == n,
            pos.len() == n,
            forall|w: int| 0 <= w < n ==> indeg@[w] == pending(es, vis@, w, m as int),
            ready@.no_duplicates(),
            forall|j: int| 0 <= j < ready@.len() ==> (#[trigger] ready@[j]) < n,
            forall|w: int| 0 <= w < n ==> (ready@.contains(w as usize) <==> (!vis@[w] && indeg@[w] == 0)),
            count == visited_count(vis@, n as int),
            forall|j: int|
                0 <= j < m && #[trigger] vis@[es[j].1 as int] ==> vis@[es[j].0 as int] && pos[es[j].0 as int]
                    < pos[es[j].1 as int],
            forall|w: int| 0 <= w < n && #[trigger] vis@[w] ==> pos[w] < count,
        ensures
            ready@.len() == 0,
        decreases n - count,
    {
        proof {
            lemma_visited_count_full(vis@, n as int);
        }
        let ghost old_ready = ready@;
        let popped = ready.pop();
        let u = match popped {
            Some(u) => u,
            None => break ,
        };
        let ghost old_vis = vis@;
        let ghost old_indeg = indeg@;
        proof {
            assert(old_ready.last() == u);
            assert(old_ready.contains(u));
            assert(!old_vis[u as int] && old_indeg[u as int] == 0);
            assert forall|w: int| 0 <= w < n && w != u implies (ready@.contains(w as usize) <==> (
            !old_vis[w] && old_indeg[w] == 0)) by {
                if old_ready.contains(w as usize) {
                    let j = choose|j: int| 0 <= j < old_ready.len() && old_ready[j] == w as usize;
                    assert(j != old_ready.len() - 1);
                    assert(ready@[j] == w as usize);
                }
                if ready@.contains(w as usize) {
                    let j = choose|j: int| 0 <= j < ready@.len() && ready@[j] == w as usize;
                    assert(old_ready[j] == w as usize);
                }
            }
            assert(!ready@.contains(u)) by {
                if ready@.contains(u) {
                    let j = choose|j: int| 0 <= j < ready@.len() && ready@[j] == u;
                    assert(old_ready[j] == old_ready[old_ready.len() - 1]);
                }
            }
            lemma_pending_zero(es, old_vis, u as int, m as int);
            lemma_visited_count_update(old_vis, u as int, n as int);
            assert forall|w: int| 0 <= w < n implies pending(es, old_vis, w, m as int) == pending(
                es,
                old_vis.update(u as int, true),
                w,
                m as int,
            ) + between(es, u as int, w, m as int) by {
                lemma_pending_visit(es, old_vis, u as int, w, m as int);
            }
        }
        vis.set(u, true);
        let ghost old_pos = pos;
        let ghost old_count = count;
        proof {
            pos = pos.update(u as int, count as int);
        }
        count = count + 1;
        let mut k: usize = 0;
        while k < m
            invariant
                m == es.len(),
                es == edges@,
                forall|j: int| 0 <= j < es.len() ==> (#[trigger] es[j]).0 < n && es[j].1 < n,
                u < n,
                k <= m,
                indeg@.len() == n,
                vis@.len() == n,
                old_vis.len() == n,
                vis@ == old_vis.update(u as int, true),
                !old_vis[u as int],
                pending(es, old_vis, u as int, m as int) == 0,
                forall|w: int|
                    0 <= w < n ==> pending(es, old_vis, w, m as int) == pending(es, vis@, w, m as int)
                        + between(es, u as int, w, m as int),
                forall|w: int|
                    0 <= w < n ==> indeg@[w] + between(es, u as int, w, k as int) == pending(
                        es,
                        old_vis,
                        w,
                        m as int,
                    ),
                ready@.no_duplicates(),
                forall|j: int| 0 <= j < ready@.len() ==> (#[trigger] ready@[j]) < n,
                forall|w: int| 0 <= w < n ==> (ready@.contains(w as usize) <==> (!vis@[w] && indeg@[w] == 0)),
                forall|j: int|
                    0 <= j < m && #[trigger] old_vis[es[j].1 as int] ==> old_vis[es[j].0 as int],
            decreases m - k,
        {
            let (a, t) = edges[k];
            if a == u {
                proof {
                    assert(es[k as int] == (u, t));
                    lemma_between_mono(es, u as int, t as int, k + 1, m as int);
                    assert(between(es, u as int, t as int, k + 1) == between(es, u as int, t as int, k as int) + 1);
                    assert(t < n);
                    assert(pending(es, old_vis, t as int, m as int) == pending(es, vis@, t as int, m as int)
                        + between(es, u as int, t as int, m as int));
                    assert(indeg@[t as int] + between(es, u as int, t as int, k as int) == pending(
                        es,
                        old_vis,
                        t as int,
                        m as int,
                    ));
                    assert(indeg@[t as int] >= 1);
                    if t == u {
                        assert(pending(es, old_vis, u as int, m as int) == pending(es, vis@, u as int, m as int)
                            + between(es, u as int, u as int, m as int));
                        assert(false);
                    }
                    if old_vis[t as int] {
                        assert(old_vis[es[k as int].1 as int]);
                        assert(old_vis[es[k as int].0 as int]);
                        assert(false);
                    }
                    assert(vis@[t as int] == old_vis[t as int]);
                }
                let ghost rb = ready@;
                let d = indeg[t];
                indeg.set(t, d - 1);
                if d == 1 {
                    proof {
                        assert(!ready@.contains(t));
                    }
                    ready.push(t);
                    proof {
                        assert(ready@[ready@.len() - 1] == t);
                    }
                }
                proof {
                    assert forall|w: int| 0 <= w < n implies (ready@.contains(w as usize) <==> (!vis@[w]
                        && indeg@[w] == 0)) by {
                        if w != t {
                            if ready@.contains(w as usize) && d == 1 {
                                let j = choose|j: int| 0 <= j < ready@.len() && ready@[j] == w as usize;
                                assert(j < ready@.len() - 1);
                            }
                            if d == 1 && !vis@[w] && indeg@[w] == 0 {
                                assert(rb.contains(w as usize));
                                let j = choose|j: int| 0 <= j < rb.len() && rb[j] == w as usize;
                                assert(ready@[j] == w as usize);
                            }
                        }
                    }
                }
            }
            k = k + 1;
        }
        proof {
            assert forall|w: int| 0 <= w < n && !(#[trigger] vis@[w]) implies indeg@[w] == pending(
                es,
                vis@,
                w,
                m as int,
            ) by {
                assert(indeg@[w] + between(es, u as int, w, m as int) == pending(es, old_vis, w, m as int));
            }
            assert forall|w: int| 0 <= w < n implies indeg@[w] == pending(es, vis@, w, m as int) by {
                assert(indeg@[w] + between(es, u as int, w, m as int) == pending(es, old_vis, w, m as int));
            }
            assert forall|j: int|
                0 <= j < m && #[trigger] vis@[es[j].1 as int] implies vis@[es[j].0 as int] && pos[es[j].0 as int]
                    < pos[es[j].1 as int] by {
                let (a, b) = es[j];
                if b == u {
                    assert(old_vis[a as int]);
                    assert(a != u);
                    assert(old_pos[a as int] < old_count);
                } else {
                    assert(old_vis[b as int]);
                    assert(old_vis[es[j].1 as int]);
                    assert(old_vis[a as int]);
                    assert(old_pos[a as int] < old_pos[b as int]);
                    assert(a != u);
                }
            }
            assert forall|w: int| 0 <= w < n && #[trigger] vis@[w] implies pos[w] < count by {
                if w != u {
                    assert(old_vis[w]);
                    assert(old_pos[w] < old_count);
                }
            }
        }
    }
    proof {
        lemma_visited_count_full(vis@, n as int);
    }
    if count == n {
        proof {
            let rank = |w: int| pos[w];
            assert(ranks_edges(es, rank)) by {
                assert forall|j: int| #![trigger es[j]] 0 <= j < es.len() implies rank(es[j].0 as int) < rank(
                    es[j].1 as int,
                ) by {
                    assert(vis@[es[j].1 as int]);
                }
            }
        }
        true
    } else {
        proof {
            assert forall|rank: spec_fn(int) -> int| !ranks_edges(es, rank) by {
                let w = lemma_least_unvisited(vis@, n as int, rank);
                assert(!ready@.contains(w as usize));
                assert(indeg@[w] > 0);
                lemma_pending_witness(es, vis@, w, m as int);
                let j = choose|j: int| 0 <= j < m && es[j].1 == w && !vis@[es[j].0 as int];
                assert(rank(es[j].0 as int) >= rank(w));
                if ranks_edges(es, rank) {
                    assert(rank(es[j].0 as int) < rank(es[j].1 as int));
                }
            }
        }
        false
    }
}

/// A walk whose consecutive nodes are joined by edges.
pub open spec fn is_walk(edges: Seq<(usize, usize)>, walk: Seq<int>) -> bool {
    forall|i: int|
        0 <= i < walk.len() - 1 ==> exists|k: int|
            0 <= k < edges.len() && edges[k].0 == #[trigger] walk[i] && edges[k].1 == walk[i + 1]
}

/// Ranks increase strictly along a walk.
proof fn lemma_rank_increases(edges: Seq<(usize, usize)>, walk: Seq<int>, rank: spec_fn(int) -> int, i: int)
    requires
        ranks_edges(edges, rank),
        is_walk(edges, walk),
        1 <= i < walk.len(),
    ensures
        rank(walk[0]) < rank(walk[i]),
    decreases i,
{
    assert(walk[i - 1] == walk[i - 1]);
    let k = choose|k: int| 0 <= k < edges.len() && edges[k].0 == walk[i - 1] && edges[k].1 == walk[i];
    assert(rank(edges[k].0 as int) < rank(edges[k].1 as int));
    if i > 1 {
        lemma_rank_increases(edges, walk, rank, i - 1);
    }
}

/// A graph with a topological order has no cycle: no walk of one or more edges
/// returns to the node it started from.
pub proof fn lemma_orderable_has_no_cycle(edges: Seq<(usize, usize)>, walk: Seq<int>)
    requires
        topologically_orderable(edges),
        walk.len() >= 2,
        is_walk(edges, walk),
    ensures
        walk[0] != walk[walk.len() - 1],
{
    let rank = choose|rank: spec_fn(int) -> int| ranks_edges(edges, rank);
    lemma_rank_increases(edges, walk, rank, walk.len() - 1);
}

} // verus!
