//! Edmonds-Karp maximum flow on a dense residual matrix, the solver behind
//! the experience allocation.
//!
//! The matrix is stored row-major: the residual capacity from node `u` to
//! node `v` of an `n`-node graph sits at `u * n + v`.
use vstd::prelude::*;
use crate::effective::cut::{is_max_flow_value, lemma_residual_certifies_max};

verus! {

/// The largest graph the solver accepts: the allocation's own solve bound
/// (the purchases and pools a character can hold stay far below it), and
/// small enough that the `n * n` matrix is indexable and the sum of a row of
/// `u32` residuals fits in `u64` with room for a path's bottleneck.
pub const MAX_NODES: usize = 2048;

/// `x` capped at `u32::MAX`.
pub open spec fn capped(x: int) -> u32 {
    if x > 0xFFFF_FFFF { 0xFFFF_FFFFu32 } else if x < 0 { 0u32 } else { x as u32 }
}

/// A stretch of a row whose cells are all zero adds nothing to its sum.
pub proof fn lemma_row_zero_stretch(m: Seq<u32>, n: int, r: int, lo: int, hi: int)
    requires
        0 <= lo <= hi,
        forall|c: int| lo <= c < hi ==> #[trigger] m[r * n + c] == 0,
    ensures
        row_sum(m, n, r, hi) == row_sum(m, n, r, lo),
    decreases hi - lo,
{
    if hi > lo {
        lemma_row_zero_stretch(m, n, r, lo, hi - 1);
        assert(m[r * n + (hi - 1)] == 0);
    }
}

/// Every pair of opposite residuals sums to what it summed to in `m0`.
pub open spec fn pairs_kept(m: Seq<u32>, m0: Seq<u32>, n: int) -> bool {
    forall|u: int, v: int| 0 <= u < n && 0 <= v < n ==> #[trigger] cell(m, n, u, v) + cell(m, n, v, u) == cell(m0, n, u, v) + cell(m0, n, v, u)
}

/// No pair of opposite capacities exceeds `u32::MAX` together.
pub open spec fn pairs_fit(m: Seq<u32>, n: int) -> bool {
    forall|u: int, v: int| 0 <= u < n && 0 <= v < n ==> #[trigger] cell(m, n, u, v) + cell(m, n, v, u) <= u32::MAX
}

/// Every node other than the source and the sink keeps the total of its
/// outgoing residuals.
pub open spec fn rows_kept(m: Seq<u32>, m0: Seq<u32>, n: int, source: int, sink: int) -> bool {
    forall|u: int| 0 <= u < n && u != source && u != sink ==> #[trigger] row_sum(m, n, u, n) == row_sum(m0, n, u, n)
}

/// Pushing `b` along the edge `(p, c)` (forward residual down, backward up)
/// keeps the sum of every pair of opposite residuals.
proof fn lemma_push_keeps_pairs(m0: Seq<u32>, n: int, p: int, c: int, b: u32)
    requires
        m0.len() == n * n,
        0 <= p < n,
        0 <= c < n,
        p != c,
        b <= m0[p * n + c],
        m0[c * n + p] + b <= u32::MAX,
    ensures
        ({
            let m2 = m0.update(p * n + c, (m0[p * n + c] - b) as u32).update(c * n + p, (m0[c * n + p] + b) as u32);
            &&& m2.len() == n * n
            &&& forall|u: int, v: int| 0 <= u < n && 0 <= v < n ==> #[trigger] cell(m2, n, u, v) + cell(m2, n, v, u) == cell(m0, n, u, v) + cell(m0, n, v, u)
        }),
{
    lemma_index(n, p, c, c, p);
    lemma_index(n, c, p, p, c);
    let m2 = m0.update(p * n + c, (m0[p * n + c] - b) as u32).update(c * n + p, (m0[c * n + p] + b) as u32);
    assert forall|u: int, v: int| 0 <= u < n && 0 <= v < n implies #[trigger] cell(m2, n, u, v) + cell(m2, n, v, u) == cell(m0, n, u, v) + cell(m0, n, v, u) by {
        lemma_index(n, u, v, p, c);
        lemma_index(n, u, v, c, p);
        lemma_index(n, v, u, p, c);
        lemma_index(n, v, u, c, p);
    }
}

/// Pushing `b` along the edge `(p, c)` moves `b` out of row `p` and into row
/// `c`, and leaves every other row's total alone.
proof fn lemma_push_moves_rows(m0: Seq<u32>, n: int, p: int, c: int, b: u32)
    requires
        m0.len() == n * n,
        0 <= p < n,
        0 <= c < n,
        p != c,
        b <= m0[p * n + c],
        m0[c * n + p] + b <= u32::MAX,
    ensures
        ({
            let m2 = m0.update(p * n + c, (m0[p * n + c] - b) as u32).update(c * n + p, (m0[c * n + p] + b) as u32);
            forall|u: int| 0 <= u < n ==> #[trigger] row_sum(m2, n, u, n)
                == row_sum(m0, n, u, n) - (if u == p { b as int } else { 0 }) + (if u == c { b as int } else { 0 })
        }),
{
    lemma_index(n, p, c, c, p);
    lemma_index(n, c, p, p, c);
    let m1 = m0.update(p * n + c, (m0[p * n + c] - b) as u32);
    let m2 = m1.update(c * n + p, (m0[c * n + p] + b) as u32);
    assert(m1[c * n + p] == m0[c * n + p]);
    assert forall|u: int| 0 <= u < n implies #[trigger] row_sum(m2, n, u, n)
        == row_sum(m0, n, u, n) - (if u == p { b as int } else { 0 }) + (if u == c { b as int } else { 0 }) by {
        lemma_sums_update(m0, n, p, c, (m0[p * n + c] - b) as u32, u, n);
        lemma_sums_update(m1, n, c, p, (m0[c * n + p] + b) as u32, u, n);
    }
}

/// The cell `(a, b)` of a row-major `n`-column matrix.
pub open spec fn cell(m: Seq<u32>, n: int, a: int, b: int) -> u32 {
    m[a * n + b]
}

/// The sum of the first `k` entries of row `r`.
pub open spec fn row_sum(m: Seq<u32>, n: int, r: int, k: int) -> int
    decreases k,
{
    if k <= 0 { 0 } else { row_sum(m, n, r, k - 1) + m[r * n + k - 1] }
}

/// The sum of the first `k` entries of column `c`.
pub open spec fn col_sum(m: Seq<u32>, n: int, c: int, k: int) -> int
    decreases k,
{
    if k <= 0 { 0 } else { col_sum(m, n, c, k - 1) + m[(k - 1) * n + c] }
}

/// Matrix positions are in bounds and name exactly one cell.
pub proof fn lemma_index(n: int, a: int, b: int, c: int, d: int)
    requires
        0 <= a < n,
        0 <= b < n,
        0 <= c < n,
        0 <= d < n,
    ensures
        0 <= a * n + b < n * n,
        (a * n + b == c * n + d) <==> (a == c && b == d),
{
    assert(0 <= a * n + b < n * n) by (nonlinear_arith)
        requires
            0 <= a < n,
            0 <= b < n,
    ;
    assert((a * n + b == c * n + d) ==> (a == c && b == d)) by (nonlinear_arith)
        requires
            0 <= a < n,
            0 <= b < n,
            0 <= c < n,
            0 <= d < n,
    ;
}

/// Writing one cell moves the row and column sums that contain it by the
/// change, and no others.
pub proof fn lemma_sums_update(m: Seq<u32>, n: int, x: int, y: int, val: u32, r: int, k: int)
    requires
        0 <= x < n,
        0 <= y < n,
        0 <= r < n,
        0 <= k <= n,
        m.len() == n * n,
    ensures
        row_sum(m.update(x * n + y, val), n, r, k) == row_sum(m, n, r, k) + (if x == r && y < k { val - m[x * n + y] } else { 0 }),
        col_sum(m.update(x * n + y, val), n, r, k) == col_sum(m, n, r, k) + (if y == r && x < k { val - m[x * n + y] } else { 0 }),
    decreases k,
{
    lemma_index(n, x, y, x, y);
    if k > 0 {
        lemma_sums_update(m, n, x, y, val, r, k - 1);
        lemma_index(n, r, k - 1, x, y);
        lemma_index(n, k - 1, r, x, y);
    }
}

/// Sums of `u32` entries are bounded.
pub proof fn lemma_row_sum_bounds(m: Seq<u32>, n: int, r: int, k: int)
    requires
        0 <= r < n,
        0 <= k <= n,
        m.len() == n * n,
    ensures
        0 <= row_sum(m, n, r, k) <= k * 0xFFFF_FFFF,
        0 <= col_sum(m, n, r, k),
    decreases k,
{
    if k > 0 {
        lemma_row_sum_bounds(m, n, r, k - 1);
        lemma_index(n, r, k - 1, r, k - 1);
        lemma_index(n, k - 1, r, k - 1, r);
    }
}

/// The flat position of cell `(u, v)`.
pub fn at_cell(n: usize, u: usize, v: usize) -> (r: usize)
    requires
        n <= MAX_NODES,
        u < n,
        v < n,
    ensures
        r == u * n + v,
        r < n * n,
{
    proof {
        lemma_index(n as int, u as int, v as int, u as int, v as int);
        assert(n * n <= 2048 * 2048) by (nonlinear_arith)
            requires
                n <= 2048,
        ;
    }
    u * n + v
}

/// How many entries of `p` are set (differ from `usize::MAX`).
pub open spec fn set_count(p: Seq<usize>) -> nat
    decreases p.len(),
{
    if p.len() == 0 { 0 } else { set_count(p.drop_last()) + if p.last() != usize::MAX { 1nat } else { 0nat } }
}

proof fn lemma_set_count(p: Seq<usize>, i: int, val: usize)
    requires
        0 <= i < p.len(),
        p[i] == usize::MAX,
        val != usize::MAX,
    ensures
        set_count(p.update(i, val)) == set_count(p) + 1,
        set_count(p) <= p.len(),
    decreases p.len(),
{
    lemma_set_count_bound(p);
    if i < p.len() - 1 {
        assert(p.update(i, val).drop_last() =~= p.drop_last().update(i, val));
        lemma_set_count(p.drop_last(), i, val);
    } else {
        assert(p.update(i, val).drop_last() =~= p.drop_last());
    }
}

proof fn lemma_set_count_bound(p: Seq<usize>)
    ensures
        set_count(p) <= p.len(),
    decreases p.len(),
{
    if p.len() > 0 {
        lemma_set_count_bound(p.drop_last());
    }
}

/// The search reached everything it could: a discovered node's positive
/// residuals lead only to discovered nodes.
pub open spec fn bfs_closed(m: Seq<u32>, n: int, parent: Seq<usize>) -> bool {
    forall|u: int, v: int| 0 <= u < n && 0 <= v < n && parent[u] != usize::MAX && #[trigger] cell(m, n, u, v) > 0
        ==> parent[v] != usize::MAX
}

/// No augmenting path remains: the nodes `reach` marks hold the source, not
/// the sink, and no positive residual leaves them.
pub open spec fn separates(m: Seq<u32>, n: int, source: int, sink: int, reach: Seq<bool>) -> bool {
    &&& reach.len() == n
    &&& reach[source]
    &&& !reach[sink]
    &&& forall|u: int, v: int| 0 <= u < n && 0 <= v < n && reach[u] && #[trigger] cell(m, n, u, v) > 0 ==> reach[v]
}

/// The breadth-first search tree facts the augmenting walk relies on: every
/// discovered node other than the source hangs off a discovered parent by an
/// edge of positive residual capacity, one level deeper.
pub open spec fn bfs_tree(m: Seq<u32>, n: int, source: int, parent: Seq<usize>, dist: Seq<usize>) -> bool {
    &&& parent.len() == n
    &&& dist.len() == n
    &&& parent[source] == source
    &&& dist[source] == 0
    &&& forall|v: int| 0 <= v < n && #[trigger] parent[v] != usize::MAX ==> dist[v] < n
    &&& forall|v: int| 0 <= v < n && v != source && #[trigger] parent[v] != usize::MAX ==> {
        &&& parent[v] < n
        &&& parent[parent[v] as int] != usize::MAX
        &&& m[parent[v] * n + v] > 0
        &&& dist[v] == dist[parent[v] as int] + 1
    }
}

/// The search's state: each node's parent (`usize::MAX` while undiscovered),
/// each node's depth, and the queue of discovered nodes.
pub type SearchState = (Seq<usize>, Seq<usize>, Seq<usize>);

/// The search scanning node `u`'s row from column `v` on: each undiscovered
/// node reached by a positive residual is discovered, one level below `u`,
/// and queued.
pub open spec fn bfs_scan(m: Seq<u32>, n: int, u: int, st: SearchState, v: int) -> SearchState
    decreases n - v,
{
    if v < 0 || v >= n {
        st
    } else {
        let next = if st.0[v] == usize::MAX && cell(m, n, u, v) > 0 {
            (st.0.update(v, u as usize), st.1.update(v, (st.1[u] + 1) as usize), st.2.push(v as usize))
        } else {
            st
        };
        bfs_scan(m, n, u, next, v + 1)
    }
}

/// The search from queue position `head` on, for at most `fuel` rounds.
pub open spec fn bfs_run(m: Seq<u32>, n: int, st: SearchState, head: int, fuel: nat) -> SearchState
    decreases fuel,
{
    if fuel == 0 || head < 0 || head >= st.2.len() {
        st
    } else {
        bfs_run(m, n, bfs_scan(m, n, st.2[head] as int, st, 0), head + 1, (fuel - 1) as nat)
    }
}

/// The search's start: only the source discovered, its own parent.
pub open spec fn bfs_start(n: int, source: int) -> SearchState {
    (
        Seq::new(n as nat, |i: int| if i == source { source as usize } else { usize::MAX }),
        Seq::new(n as nat, |i: int| 0usize),
        seq![source as usize],
    )
}

/// The breadth-first search from `source` over the positive residuals of
/// `m`, scanning each node's row in column order.
pub open spec fn bfs_result(m: Seq<u32>, n: int, source: int) -> SearchState {
    bfs_run(m, n, bfs_start(n, source), 0, (n + 1) as nat)
}

#[verifier::rlimit(80)]
#[verifier::spinoff_prover]
fn bfs(n: usize, source: usize, cap: &Vec<u32>) -> (res: (Vec<usize>, Vec<usize>))
    requires
        n <= MAX_NODES,
        source < n,
        cap@.len() == n * n,
    ensures
        bfs_tree(cap@, n as int, source as int, res.0@, res.1@),
        bfs_closed(cap@, n as int, res.0@),
        res.0@ == bfs_result(cap@, n as int, source as int).0,
        res.1@ == bfs_result(cap@, n as int, source as int).1,
{
    let mut parent: Vec<usize> = Vec::new();
    let mut dist: Vec<usize> = Vec::new();
    let mut i: usize = 0;
    while i < n
        invariant
            i <= n,
            parent@.len() == i,
            dist@.len() == i,
            forall|k: int| 0 <= k < i ==> parent@[k] == usize::MAX && dist@[k] == 0,
        decreases n - i,
    {
        parent.push(usize::MAX);
        dist.push(0);
        i += 1;
    }
    proof {
        lemma_take_unset(parent@, n as int);
        assert(parent@.take(n as int) =~= parent@);
        lemma_set_count(parent@, source as int, source);
    }
    parent.set(source, source);
    let mut queue: Vec<usize> = Vec::new();
    queue.push(source);
    let ghost result = bfs_result(cap@, n as int, source as int);
    proof {
        assert(parent@ =~= bfs_start(n as int, source as int).0);
        assert(dist@ =~= bfs_start(n as int, source as int).1);
        assert(queue@ =~= bfs_start(n as int, source as int).2);
    }
    let ghost mut slot: Seq<int> = Seq::new(n as nat, |i: int| 0int);
    proof {
        assert forall|w: int| 0 <= w < n && #[trigger] parent@[w] != usize::MAX implies 0 <= slot[w] < queue@.len() && queue@[slot[w]] == w by {
            assert(w == source);
        }
    }
    let mut head: usize = 0;
    while head < queue.len()
        invariant
            n <= MAX_NODES,
            source < n,
            cap@.len() == n * n,
            bfs_tree(cap@, n as int, source as int, parent@, dist@),
            head <= queue@.len(),
            queue@.len() == set_count(parent@),
            set_count(parent@) <= n,
            forall|k: int| 0 <= k < queue@.len() ==> #[trigger] queue@[k] < n && parent@[queue@[k] as int] != usize::MAX && dist@[queue@[k] as int] <= k,
            forall|j: int, w: int| 0 <= j < head && 0 <= w < n && #[trigger] cell(cap@, n as int, queue@[j] as int, w) > 0
                ==> parent@[w] != usize::MAX,
            slot.len() == n,
            forall|w: int| 0 <= w < n && #[trigger] parent@[w] != usize::MAX ==> 0 <= slot[w] < queue@.len() && queue@[slot[w]] == w,
            result == bfs_result(cap@, n as int, source as int),
            bfs_run(cap@, n as int, (parent@, dist@, queue@), head as int, (n + 1 - head) as nat) == result,
        decreases n - head,
    {
        let u = queue[head];
        let ghost scan0: SearchState = (parent@, dist@, queue@);
        let mut v: usize = 0;
        while v < n
            invariant
                n <= MAX_NODES,
                source < n,
                u < n,
                cap@.len() == n * n,
                parent@[u as int] != usize::MAX,
                dist@[u as int] <= head,
                head < queue@.len(),
                bfs_tree(cap@, n as int, source as int, parent@, dist@),
                queue@.len() == set_count(parent@),
                set_count(parent@) <= n,
                forall|k: int| 0 <= k < queue@.len() ==> #[trigger] queue@[k] < n && parent@[queue@[k] as int] != usize::MAX && dist@[queue@[k] as int] <= k,
                u == queue@[head as int],
                v <= n,
                forall|j: int, w: int| 0 <= j < head && 0 <= w < n && #[trigger] cell(cap@, n as int, queue@[j] as int, w) > 0
                    ==> parent@[w] != usize::MAX,
                forall|w: int| 0 <= w < v && #[trigger] cell(cap@, n as int, u as int, w) > 0 ==> parent@[w] != usize::MAX,
                slot.len() == n,
                forall|w: int| 0 <= w < n && #[trigger] parent@[w] != usize::MAX ==> 0 <= slot[w] < queue@.len() && queue@[slot[w]] == w,
                bfs_scan(cap@, n as int, u as int, scan0, 0) == bfs_scan(cap@, n as int, u as int, (parent@, dist@, queue@), v as int),
            decreases n - v,
        {
            let idx = at_cell(n, u, v);
            let ghost st_v: SearchState = (parent@, dist@, queue@);
            if parent[v] == usize::MAX && cap[idx] > 0 {
                proof {
                    lemma_set_count(parent@, v as int, u);
                    lemma_set_count_bound(parent@.update(v as int, u));
                }
                let d = dist[u] + 1;
                let ghost old_queue = queue@;
                let ghost old_parent = parent@;
                parent.set(v, u);
                dist.set(v, d);
                queue.push(v);
                proof {
                    assert(v != source);
                    slot = slot.update(v as int, old_queue.len() as int);
                    assert forall|w: int| 0 <= w < n && #[trigger] parent@[w] != usize::MAX implies 0 <= slot[w] < queue@.len() && queue@[slot[w]] == w by {
                        if w != v {
                            assert(old_parent[w] != usize::MAX);
                        }
                    }
                    assert forall|j: int, w: int| 0 <= j < head && 0 <= w < n && #[trigger] cell(cap@, n as int, queue@[j] as int, w) > 0
                        implies parent@[w] != usize::MAX by {
                        assert(queue@[j] == old_queue[j]);
                        assert(cell(cap@, n as int, old_queue[j] as int, w) > 0);
                    }
                    assert forall|w: int| 0 <= w < n && w != source && #[trigger] parent@[w] != usize::MAX implies {
                        &&& parent@[w] < n
                        &&& parent@[parent@[w] as int] != usize::MAX
                        &&& cap@[parent@[w] * n + w] > 0
                        &&& dist@[w] == dist@[parent@[w] as int] + 1
                    } by {
                        if w != v {
                            assert(parent@[parent@[w] as int] != usize::MAX);
                            if parent@[w] as int == v as int {
                                assert(false);
                            }
                        }
                    }
                }
            }
            proof {
                assert(cell(cap@, n as int, u as int, v as int) == cap@[u * n + v]);
                let next = if st_v.0[v as int] == usize::MAX && cell(cap@, n as int, u as int, v as int) > 0 {
                    (st_v.0.update(v as int, u), st_v.1.update(v as int, (st_v.1[u as int] + 1) as usize), st_v.2.push(v))
                } else {
                    st_v
                };
                assert((parent@, dist@, queue@) =~= next);
            }
            v += 1;
        }
        proof {
            assert forall|j: int, w: int| 0 <= j < head + 1 && 0 <= w < n && #[trigger] cell(cap@, n as int, queue@[j] as int, w) > 0
                implies parent@[w] != usize::MAX by {
                if j == head {
                    assert(queue@[j] == u);
                }
            }
        }
        proof {
            assert(bfs_scan(cap@, n as int, u as int, (parent@, dist@, queue@), n as int) == (parent@, dist@, queue@));
            assert(scan0.2[head as int] == u);
        }
        head += 1;
    }
    proof {
        assert forall|a: int, b: int| 0 <= a < n && 0 <= b < n && parent@[a] != usize::MAX && #[trigger] cell(cap@, n as int, a, b) > 0
            implies parent@[b] != usize::MAX by {
            let k = slot[a];
            assert(cell(cap@, n as int, queue@[k] as int, b) > 0);
        }
        assert(bfs_run(cap@, n as int, (parent@, dist@, queue@), head as int, (n + 1 - head) as nat) == (parent@, dist@, queue@));
    }
    (parent, dist)
}

proof fn lemma_take_unset(p: Seq<usize>, k: int)
    requires
        0 <= k <= p.len(),
        forall|j: int| 0 <= j < p.len() ==> p[j] == usize::MAX,
    ensures
        set_count(p.take(k)) == 0,
    decreases k,
{
    if k > 0 {
        assert(p.take(k).drop_last() =~= p.take(k - 1));
        lemma_take_unset(p, k - 1);
    }
}

/// The augmenting path found by the search, from node `v` back up the
/// parent links to the source (the source left out), for at most `fuel`
/// steps.
pub open spec fn walk_back(parent: Seq<usize>, v: int, source: int, fuel: nat) -> Seq<usize>
    decreases fuel,
{
    if fuel == 0 || v == source {
        Seq::empty()
    } else {
        seq![v as usize] + walk_back(parent, parent[v] as int, source, (fuel - 1) as nat)
    }
}

/// The least residual along the first `k` edges of `path`, each entered
/// from its node's parent (`u32::MAX` for none).
pub open spec fn bottleneck(m: Seq<u32>, n: int, parent: Seq<usize>, path: Seq<usize>, k: int) -> u32
    decreases k,
{
    if k <= 0 {
        u32::MAX
    } else {
        let b = bottleneck(m, n, parent, path, k - 1);
        let c = path[k - 1] as int;
        let x = m[parent[c] * n + c];
        if x < b { x } else { b }
    }
}

/// `b` pushed along the first `k` edges of `path`: each forward residual
/// loses it and each backward residual gains it (saturating).
pub open spec fn pushed(m: Seq<u32>, n: int, parent: Seq<usize>, path: Seq<usize>, b: u32, k: int) -> Seq<u32>
    decreases k,
{
    if k <= 0 {
        m
    } else {
        let m0 = pushed(m, n, parent, path, b, k - 1);
        let c = path[k - 1] as int;
        let p = parent[c] as int;
        let m1 = m0.update(p * n + c, (m0[p * n + c] - b) as u32);
        let back = m1[c * n + p];
        m1.update(c * n + p, if back + b > u32::MAX { u32::MAX } else { (back + b) as u32 })
    }
}

/// Edmonds-Karp from the residuals `m`, having moved `total` so far, for at
/// most `fuel` rounds: search, and while the sink is reached, push the
/// path's bottleneck along it. The final residuals and the total moved.
pub open spec fn ek_run(m: Seq<u32>, n: int, source: int, sink: int, total: int, fuel: nat) -> (Seq<u32>, int)
    decreases fuel,
{
    if fuel == 0 {
        (m, total)
    } else {
        let st = bfs_result(m, n, source);
        if st.0[sink] == usize::MAX {
            (m, total)
        } else {
            let path = walk_back(st.0, sink, source, st.1[sink] as nat);
            let b = bottleneck(m, n, st.0, path, path.len() as int);
            ek_run(pushed(m, n, st.0, path, b, path.len() as int), n, source, sink, total + b, (fuel - 1) as nat)
        }
    }
}

/// Edmonds-Karp on the capacities `m`: the final residuals and the amount
/// moved. Each round moves at least one unit out of the source's row, so
/// the row's total plus one rounds suffice.
pub open spec fn edmonds_karp(m: Seq<u32>, n: int, source: int, sink: int) -> (Seq<u32>, int) {
    ek_run(m, n, source, sink, 0, (row_sum(m, n, source, n) + 1) as nat)
}

/// Edmonds-Karp maximum flow from `source` to `sink`, augmenting `cap` in
/// place: each round finds a shortest augmenting path by breadth-first
/// search and pushes its bottleneck along it, until the sink is unreachable.
///
/// What leaves the source is never put back on it (its outgoing residuals
/// only shrink), and every unit of flow found arrived at the sink: the flow
/// returned plus the sink's remaining inbound residual never exceeds its
/// inbound residual at the start. The flow returned is exactly what left the
/// source: the shrink of its outgoing residuals, capped at `u32::MAX`, and
/// that amount is the maximum flow of the starting network: some flow moves
/// it and none moves more. It stops only when no augmenting path remains:
/// the nodes reachable from the source along positive residuals exclude the
/// sink.
///
/// The result is a valid residual of the starting one: each pair of opposite
/// residuals keeps its sum (what one direction lost the other gained), and
/// every node other than the source and the sink keeps the total of its
/// outgoing residuals (what flows in flows out). Together with the cut left
/// behind, this is the certificate that the flow is maximum.
pub fn max_flow(n: usize, source: usize, sink: usize, cap: &mut Vec<u32>) -> (total: u32)
    requires
        n <= MAX_NODES,
        source < n,
        sink < n,
        source != sink,
        old(cap)@.len() == n * n,
        pairs_fit(old(cap)@, n as int),
    ensures
        final(cap)@.len() == n * n,
        pairs_kept(final(cap)@, old(cap)@, n as int),
        rows_kept(final(cap)@, old(cap)@, n as int, source as int, sink as int),
        forall|j: int| 0 <= j < n ==> #[trigger] cell(final(cap)@, n as int, source as int, j) <= cell(old(cap)@, n as int, source as int, j),
        total + col_sum(final(cap)@, n as int, sink as int, n as int) <= col_sum(old(cap)@, n as int, sink as int, n as int),
        row_sum(final(cap)@, n as int, source as int, n as int) <= row_sum(old(cap)@, n as int, source as int, n as int),
        total == capped(row_sum(old(cap)@, n as int, source as int, n as int) - row_sum(final(cap)@, n as int, source as int, n as int)),
        is_max_flow_value(old(cap)@, n as int, source as int, sink as int,
            row_sum(old(cap)@, n as int, source as int, n as int) - row_sum(final(cap)@, n as int, source as int, n as int)),
        exists|reach: Seq<bool>| separates(final(cap)@, n as int, source as int, sink as int, reach),
        final(cap)@ == edmonds_karp(old(cap)@, n as int, source as int, sink as int).0,
        total == capped(edmonds_karp(old(cap)@, n as int, source as int, sink as int).1),
{
    let ghost start = cap@;
    let mut total: u64 = 0;
    let ghost mut fuel: nat = (row_sum(start, n as int, source as int, n as int) + 1) as nat;
    proof {
        lemma_row_sum_bounds(start, n as int, source as int, n as int);
    }
    proof {
        lemma_row_sum_bounds(cap@, n as int, source as int, n as int);
        assert(n * 0xFFFF_FFFF <= 2048 * 0xFFFF_FFFF) by (nonlinear_arith)
            requires
                n <= 2048,
        ;
    }
    loop
        invariant
            n <= MAX_NODES,
            source < n,
            sink < n,
            source != sink,
            cap@.len() == n * n,
            start == old(cap)@,
            start.len() == n * n,
            forall|j: int| 0 <= j < n ==> #[trigger] cap@[source * n + j] <= start[source * n + j],
            total + col_sum(cap@, n as int, sink as int, n as int) == col_sum(start, n as int, sink as int, n as int),
            total + row_sum(cap@, n as int, source as int, n as int) == row_sum(start, n as int, source as int, n as int),
            row_sum(start, n as int, source as int, n as int) <= 2048 * 0xFFFF_FFFF,
            pairs_fit(start, n as int),
            pairs_kept(cap@, start, n as int),
            rows_kept(cap@, start, n as int, source as int, sink as int),
            fuel >= row_sum(cap@, n as int, source as int, n as int) + 1,
            ek_run(cap@, n as int, source as int, sink as int, total as int, fuel) == edmonds_karp(start, n as int, source as int, sink as int),
        decreases row_sum(cap@, n as int, source as int, n as int),
    {
        proof {
            lemma_row_sum_bounds(cap@, n as int, source as int, n as int);
        }
        let (parent, dist) = bfs(n, source, cap);
        let ghost m_round = cap@;
        if parent[sink] == usize::MAX {
            proof {
                lemma_row_sum_bounds(cap@, n as int, sink as int, n as int);
                let reach = Seq::new(n as nat, |i: int| parent@[i] != usize::MAX);
                assert(separates(cap@, n as int, source as int, sink as int, reach));
                lemma_residual_certifies_max(start, cap@, n as int, source as int, sink as int, reach);
            }
            return if total > u32::MAX as u64 { u32::MAX } else { total as u32 };
        }
        // The augmenting path, from the sink back toward the source.
        let mut path: Vec<usize> = Vec::new();
        let mut v: usize = sink;
        while v != source
            invariant
                bfs_tree(cap@, n as int, source as int, parent@, dist@),
                n <= MAX_NODES,
                source < n,
                sink < n,
                v < n,
                parent@[v as int] != usize::MAX,
                parent@[sink as int] != usize::MAX,
                path@.len() + dist@[v as int] == dist@[sink as int],
                path@.len() > 0 ==> path@[0] == sink,
                path@.len() == 0 ==> v == sink,
                path@ + walk_back(parent@, v as int, source as int, dist@[v as int] as nat) == walk_back(parent@, sink as int, source as int, dist@[sink as int] as nat),
                forall|k: int| 0 <= k < path@.len() ==> {
                    &&& #[trigger] path@[k] < n
                    &&& path@[k] != source
                    &&& parent@[path@[k] as int] != usize::MAX
                    &&& dist@[path@[k] as int] == dist@[sink as int] - k
                    &&& (if k + 1 < path@.len() { parent@[path@[k] as int] == path@[k + 1] } else { parent@[path@[k] as int] == v })
                },
            decreases dist@[v as int],
        {
            proof {
                assert(dist@[v as int] > 0);
                assert(walk_back(parent@, v as int, source as int, dist@[v as int] as nat)
                    == seq![v] + walk_back(parent@, parent@[v as int] as int, source as int, dist@[parent@[v as int] as int] as nat));
            }
            let ghost p0 = path@;
            path.push(v);
            v = parent[v];
            proof {
                assert(p0 + (seq![path@.last()] + walk_back(parent@, v as int, source as int, dist@[v as int] as nat))
                    =~= path@ + walk_back(parent@, v as int, source as int, dist@[v as int] as nat));
            }
        }
        proof {
            assert(path@ =~= walk_back(parent@, sink as int, source as int, dist@[sink as int] as nat));
        }
        let len = path.len();
        assert(len > 0);
        // The bottleneck: the least residual along the path.
        let mut b: u32 = u32::MAX;
        let mut k: usize = 0;
        while k < len
            invariant
                bfs_tree(cap@, n as int, source as int, parent@, dist@),
                n <= MAX_NODES,
                source < n,
                len == path@.len(),
                k <= len,
                b > 0,
                cap@.len() == n * n,
                forall|j: int| 0 <= j < path@.len() ==> #[trigger] path@[j] < n && path@[j] != source && parent@[path@[j] as int] != usize::MAX,
                forall|j: int| 0 <= j < k ==> b <= cap@[parent@[#[trigger] path@[j] as int] * n + path@[j]],
                b == bottleneck(cap@, n as int, parent@, path@, k as int),
            decreases len - k,
        {
            let c = path[k];
            let p = parent[c];
            let idx = at_cell(n, p, c);
            if cap[idx] < b {
                b = cap[idx];
            }
            k += 1;
        }
        // Push the bottleneck along the path.
        let ghost before = cap@;
        let ghost top = dist@[sink as int];
        proof {
            assert forall|x: int, y: int| 0 <= x < n && 0 <= y < n implies #[trigger] cell(before, n as int, x, y) + cell(before, n as int, y, x) <= u32::MAX by {
                assert(cell(start, n as int, x, y) + cell(start, n as int, y, x) <= u32::MAX);
            }
        }
        let mut k: usize = 0;
        while k < len
            invariant
                bfs_tree(before, n as int, source as int, parent@, dist@),
                n <= MAX_NODES,
                source < n,
                sink < n,
                source != sink,
                len == path@.len(),
                k <= len,
                b > 0,
                cap@.len() == n * n,
                before.len() == n * n,
                top == dist@[sink as int],
                path@[0] == sink,
                parent@[path@[len - 1] as int] == source,
                forall|j: int| 0 <= j < len ==> {
                    &&& #[trigger] path@[j] < n
                    &&& path@[j] != source
                    &&& parent@[path@[j] as int] != usize::MAX
                    &&& dist@[path@[j] as int] == top - j
                    &&& (j + 1 < len ==> parent@[path@[j] as int] == path@[j + 1])
                },
                forall|j: int| 0 <= j < len ==> b <= before[parent@[#[trigger] path@[j] as int] * n + path@[j]],
                // Cells between nodes no deeper than the current one are untouched.
                forall|x: int, y: int| 0 <= x < n && 0 <= y < n && parent@[x] != usize::MAX && parent@[y] != usize::MAX
                    && dist@[x] + k <= top && dist@[y] + k <= top ==> #[trigger] cap@[x * n + y] == before[x * n + y],
                forall|j: int| 0 <= j < n ==> #[trigger] cap@[source * n + j] <= before[source * n + j],
                col_sum(cap@, n as int, sink as int, n as int) + (if k > 0 { b as int } else { 0 }) == col_sum(before, n as int, sink as int, n as int),
                row_sum(cap@, n as int, source as int, n as int) + (if k == len { b as int } else { 0 }) == row_sum(before, n as int, source as int, n as int),
                pairs_fit(before, n as int),
                pairs_kept(cap@, before, n as int),
                forall|u: int| 0 <= u < n && u != source && u != sink ==> #[trigger] row_sum(cap@, n as int, u, n as int)
                    == row_sum(before, n as int, u, n as int) - (if 0 < k < len && u == path@[k as int] { b as int } else { 0 }),
                cap@ == pushed(before, n as int, parent@, path@, b, k as int),
            decreases len - k,
        {
            let c = path[k];
            let p = parent[c];
            proof {
                assert(dist@[c as int] == top - k);
                assert(dist@[p as int] + 1 == dist@[c as int]);
                assert(cap@[p * n + c] == before[p * n + c]);
                lemma_index(n as int, p as int, c as int, c as int, p as int);
            }
            let idx = at_cell(n, p, c);
            let ridx = at_cell(n, c, p);
            let forward = cap[idx];
            let ghost m0 = cap@;
            proof {
                assert(cell(m0, n as int, p as int, c as int) + cell(m0, n as int, c as int, p as int)
                    == cell(before, n as int, p as int, c as int) + cell(before, n as int, c as int, p as int));
                assert(cell(before, n as int, p as int, c as int) + cell(before, n as int, c as int, p as int) <= u32::MAX);
                assert(m0[c * n + p] + b <= u32::MAX);
                lemma_push_keeps_pairs(m0, n as int, p as int, c as int, b);
                lemma_push_moves_rows(m0, n as int, p as int, c as int, b);
            }
            cap.set(idx, forward - b);
            let ghost m1 = cap@;
            let back = cap[ridx];
            cap.set(ridx, back.saturating_add(b));
            proof {
                assert(cap@ =~= m0.update(p * n + c, (m0[p * n + c] - b) as u32).update(c * n + p, (m0[c * n + p] + b) as u32));
                assert(m1[c * n + p] == m0[c * n + p]);
                assert(cap@ =~= pushed(before, n as int, parent@, path@, b, k + 1));
                assert forall|x: int, y: int| 0 <= x < n && 0 <= y < n implies #[trigger] cell(cap@, n as int, x, y) + cell(cap@, n as int, y, x)
                    == cell(before, n as int, x, y) + cell(before, n as int, y, x) by {
                    assert(cell(cap@, n as int, x, y) + cell(cap@, n as int, y, x) == cell(m0, n as int, x, y) + cell(m0, n as int, y, x));
                    assert(cell(m0, n as int, x, y) + cell(m0, n as int, y, x) == cell(before, n as int, x, y) + cell(before, n as int, y, x));
                }
                assert forall|u: int| 0 <= u < n && u != source && u != sink implies #[trigger] row_sum(cap@, n as int, u, n as int)
                    == row_sum(before, n as int, u, n as int) - (if 0 < k + 1 < len && u == path@[k + 1] { b as int } else { 0 }) by {
                    assert(row_sum(cap@, n as int, u, n as int)
                        == row_sum(m0, n as int, u, n as int) - (if u == p { b as int } else { 0 }) + (if u == c { b as int } else { 0 }));
                    if k + 1 < len {
                        assert(p == path@[k + 1]);
                    } else {
                        assert(p == source);
                    }
                    if k == 0 {
                        assert(c == sink);
                    }
                }
            }
            proof {
                lemma_sums_update(m0, n as int, p as int, c as int, (forward - b) as u32, sink as int, n as int);
                lemma_sums_update(m0, n as int, p as int, c as int, (forward - b) as u32, source as int, n as int);
                lemma_sums_update(m1, n as int, c as int, p as int, back.saturating_add(b), sink as int, n as int);
                lemma_sums_update(m1, n as int, c as int, p as int, back.saturating_add(b), source as int, n as int);
                // The sink's column changes only on the first edge, the
                // source's row only on the last.
                if k > 0 {
                    assert(c != sink);
                    assert(p != sink);
                } else {
                    assert(c == sink);
                    assert(p != sink);
                }
                assert(c != source);
                if k + 1 < len {
                    assert(p == path@[k + 1]);
                    assert(p != source);
                } else {
                    assert(p == source);
                }
                assert forall|x: int, y: int| 0 <= x < n && 0 <= y < n && parent@[x] != usize::MAX && parent@[y] != usize::MAX
                    && dist@[x] + (k + 1) <= top && dist@[y] + (k + 1) <= top implies #[trigger] cap@[x * n + y] == before[x * n + y] by {
                    lemma_index(n as int, x, y, p as int, c as int);
                    lemma_index(n as int, x, y, c as int, p as int);
                }
                assert forall|j: int| 0 <= j < n implies #[trigger] cap@[source * n + j] <= before[source * n + j] by {
                    lemma_index(n as int, source as int, j, p as int, c as int);
                    lemma_index(n as int, source as int, j, c as int, p as int);
                }
            }
            k += 1;
        }
        proof {
            lemma_row_sum_bounds(cap@, n as int, source as int, n as int);
            assert forall|x: int, y: int| 0 <= x < n && 0 <= y < n implies #[trigger] cell(cap@, n as int, x, y) + cell(cap@, n as int, y, x)
                == cell(start, n as int, x, y) + cell(start, n as int, y, x) by {
                assert(cell(cap@, n as int, x, y) + cell(cap@, n as int, y, x) == cell(before, n as int, x, y) + cell(before, n as int, y, x));
                assert(cell(before, n as int, x, y) + cell(before, n as int, y, x) == cell(start, n as int, x, y) + cell(start, n as int, y, x));
            }
            assert forall|u: int| 0 <= u < n && u != source && u != sink implies #[trigger] row_sum(cap@, n as int, u, n as int)
                == row_sum(start, n as int, u, n as int) by {
                assert(row_sum(cap@, n as int, u, n as int) == row_sum(before, n as int, u, n as int));
                assert(row_sum(before, n as int, u, n as int) == row_sum(start, n as int, u, n as int));
            }
        }
        proof {
            assert(before == m_round);
            assert(fuel > 0);
            assert(ek_run(m_round, n as int, source as int, sink as int, total as int, fuel)
                == ek_run(cap@, n as int, source as int, sink as int, total + b, (fuel - 1) as nat));
            fuel = (fuel - 1) as nat;
        }
        total = total + b as u64;
    }
}

} // verus!
