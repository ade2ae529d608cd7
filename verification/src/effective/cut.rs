//! Flows and cuts on a capacity matrix: what a feasible flow is, what a cut
//! holds, and why a residual matrix with no augmenting path left proves that
//! the flow behind it is a maximum one.
use vstd::prelude::*;
use crate::effective::flow::{cell, pairs_kept, row_sum, rows_kept, separates};

verus! {

/// `f(0) + f(1) + ... + f(k - 1)`.
pub open spec fn sum_to(f: spec_fn(int) -> int, k: int) -> int
    decreases k,
{
    if k <= 0 { 0 } else { sum_to(f, k - 1) + f(k - 1) }
}

/// What leaves node `u` under `f`.
pub open spec fn out_of(f: spec_fn(int, int) -> int, n: int, u: int) -> int {
    sum_to(|v: int| f(u, v), n)
}

/// What enters node `u` under `f`.
pub open spec fn into(f: spec_fn(int, int) -> int, n: int, u: int) -> int {
    sum_to(|v: int| f(v, u), n)
}

/// The net amount `f` moves out of the source.
pub open spec fn flow_value(f: spec_fn(int, int) -> int, n: int, source: int) -> int {
    out_of(f, n, source) - into(f, n, source)
}

/// The flow that turned the capacities `c` into the residuals `r`: on each
/// edge, what its capacity lost, where it lost anything.
pub open spec fn residual_flow(c: Seq<u32>, r: Seq<u32>, n: int) -> spec_fn(int, int) -> int {
    |u: int, v: int| if cell(c, n, u, v) - cell(r, n, u, v) > 0 { cell(c, n, u, v) - cell(r, n, u, v) } else { 0 }
}

/// `f` is a flow from `source` to `sink` in the network `c`: every edge
/// carries between nothing and its capacity, and every other node passes on
/// exactly what it receives.
pub open spec fn is_flow(c: Seq<u32>, n: int, source: int, sink: int, f: spec_fn(int, int) -> int) -> bool {
    &&& forall|u: int, v: int| 0 <= u < n && 0 <= v < n ==> 0 <= #[trigger] f(u, v) <= cell(c, n, u, v)
    &&& forall|u: int| 0 <= u < n && u != source && u != sink ==> #[trigger] out_of(f, n, u) == into(f, n, u)
}

/// `side` splits the nodes with the source on it and the sink off it.
pub open spec fn is_cut(n: int, source: int, sink: int, side: Seq<bool>) -> bool {
    &&& side.len() == n
    &&& side[source]
    &&& !side[sink]
}

/// The total capacity of the edges leaving `side`.
pub open spec fn cut_capacity(c: Seq<u32>, n: int, side: Seq<bool>) -> int {
    sum_to(|u: int| sum_to(|v: int| if side[u] && !side[v] { cell(c, n, u, v) as int } else { 0 }, n), n)
}

/// `value` is the largest amount any flow from `source` to `sink` in `c`
/// can move, and some flow moves it.
pub open spec fn is_max_flow_value(c: Seq<u32>, n: int, source: int, sink: int, value: int) -> bool {
    &&& exists|f: spec_fn(int, int) -> int| #[trigger] is_flow(c, n, source, sink, f) && flow_value(f, n, source) == value
    &&& forall|f: spec_fn(int, int) -> int| #[trigger] is_flow(c, n, source, sink, f) ==> flow_value(f, n, source) <= value
}

proof fn lemma_sum_ext(f: spec_fn(int) -> int, g: spec_fn(int) -> int, k: int)
    requires
        forall|i: int| 0 <= i < k ==> #[trigger] f(i) == g(i),
    ensures
        sum_to(f, k) == sum_to(g, k),
    decreases k,
{
    if k > 0 {
        lemma_sum_ext(f, g, k - 1);
    }
}

proof fn lemma_sum_add(f: spec_fn(int) -> int, g: spec_fn(int) -> int, h: spec_fn(int) -> int, k: int)
    requires
        forall|i: int| 0 <= i < k ==> #[trigger] h(i) == f(i) + g(i),
    ensures
        sum_to(h, k) == sum_to(f, k) + sum_to(g, k),
    decreases k,
{
    if k > 0 {
        lemma_sum_add(f, g, h, k - 1);
    }
}

proof fn lemma_sum_scale(f: spec_fn(int) -> int, g: spec_fn(int) -> int, a: int, k: int)
    requires
        forall|i: int| 0 <= i < k ==> #[trigger] g(i) == a * f(i),
    ensures
        sum_to(g, k) == a * sum_to(f, k),
    decreases k,
{
    if k > 0 {
        lemma_sum_scale(f, g, a, k - 1);
        assert(a * sum_to(f, k - 1) + a * f(k - 1) == a * (sum_to(f, k - 1) + f(k - 1))) by (nonlinear_arith);
    }
}

proof fn lemma_sum_mono(f: spec_fn(int) -> int, g: spec_fn(int) -> int, k: int)
    requires
        forall|i: int| 0 <= i < k ==> #[trigger] f(i) <= g(i),
    ensures
        sum_to(f, k) <= sum_to(g, k),
    decreases k,
{
    if k > 0 {
        lemma_sum_mono(f, g, k - 1);
    }
}

/// A sum whose terms all vanish but the one at `s` is that term.
proof fn lemma_sum_single(f: spec_fn(int) -> int, s: int, k: int)
    requires
        0 <= s,
        forall|i: int| 0 <= i < k && i != s ==> #[trigger] f(i) == 0,
    ensures
        sum_to(f, k) == (if s < k { f(s) } else { 0 }),
    decreases k,
{
    if k > 0 {
        lemma_sum_single(f, s, k - 1);
    }
}

/// The two orders of summing a rectangle agree.
proof fn lemma_sum_swap(h: spec_fn(int, int) -> int, a: int, b: int)
    requires
        0 <= a,
        0 <= b,
    ensures
        sum_to(|u: int| sum_to(|v: int| h(u, v), b), a) == sum_to(|v: int| sum_to(|u: int| h(u, v), a), b),
    decreases a,
{
    if a == 0 {
        lemma_sum_single(|v: int| sum_to(|u: int| h(u, v), 0), b, b);
    } else {
        lemma_sum_swap(h, a - 1, b);
        lemma_sum_add(
            |v: int| sum_to(|u: int| h(u, v), a - 1),
            |v: int| h(a - 1, v),
            |v: int| sum_to(|u: int| h(u, v), a),
            b,
        );
    }
}

/// What `h` moves from `side` to the rest.
pub open spec fn crossing(h: spec_fn(int, int) -> int, n: int, side: Seq<bool>) -> int {
    sum_to(|u: int| sum_to(|v: int| if side[u] && !side[v] { h(u, v) } else { 0 }, n), n)
}

/// What `h` moves from the rest back into `side`.
pub open spec fn crossing_back(h: spec_fn(int, int) -> int, n: int, side: Seq<bool>) -> int {
    sum_to(|u: int| sum_to(|v: int| if !side[u] && side[v] { h(u, v) } else { 0 }, n), n)
}

/// What `h` moves inside `side`.
spec fn within(h: spec_fn(int, int) -> int, n: int, side: Seq<bool>) -> int {
    sum_to(|u: int| sum_to(|v: int| if side[u] && side[v] { h(u, v) } else { 0 }, n), n)
}

/// The net outflow of the nodes on `side`, added up, is what crosses out of
/// `side` less what crosses back in: the moves inside `side` cancel.
proof fn lemma_net_out_of_side(h: spec_fn(int, int) -> int, n: int, side: Seq<bool>)
    requires
        0 <= n,
        side.len() == n,
    ensures
        sum_to(|u: int| if side[u] { out_of(h, n, u) - into(h, n, u) } else { 0 }, n)
            == crossing(h, n, side) - crossing_back(h, n, side),
{
    let ss = |u: int, v: int| if side[u] && side[v] { h(u, v) } else { 0 };
    let st = |u: int, v: int| if side[u] && !side[v] { h(u, v) } else { 0 };
    let ts = |u: int, v: int| if !side[u] && side[v] { h(u, v) } else { 0 };
    let outs = |u: int| if side[u] { out_of(h, n, u) } else { 0 };
    let ins = |u: int| if side[u] { into(h, n, u) } else { 0 };
    // What leaves the side's nodes: inside moves plus crossings.
    assert forall|u: int| 0 <= u < n implies #[trigger] outs(u)
        == sum_to(|v: int| ss(u, v), n) + sum_to(|v: int| st(u, v), n) by {
        lemma_sum_add(|v: int| ss(u, v), |v: int| st(u, v), |v: int| if side[u] { h(u, v) } else { 0 }, n);
        if side[u] {
            lemma_sum_ext(|v: int| if side[u] { h(u, v) } else { 0 }, |v: int| h(u, v), n);
        } else {
            lemma_sum_single(|v: int| if side[u] { h(u, v) } else { 0 }, n, n);
        }
    }
    lemma_sum_add(
        |u: int| sum_to(|v: int| ss(u, v), n),
        |u: int| sum_to(|v: int| st(u, v), n),
        outs,
        n,
    );
    // What enters them, summed column by column and then turned around.
    let col = |u: int, v: int| if side[u] { h(v, u) } else { 0 };
    assert forall|u: int| 0 <= u < n implies #[trigger] ins(u) == sum_to(|v: int| col(u, v), n) by {
        if side[u] {
            lemma_sum_ext(|v: int| col(u, v), |v: int| h(v, u), n);
        } else {
            lemma_sum_single(|v: int| col(u, v), n, n);
        }
    }
    let col_rows = |u: int| sum_to(|v: int| col(u, v), n);
    lemma_sum_ext(ins, col_rows, n);
    lemma_sum_swap(col, n, n);
    let cols = |v: int| sum_to(|u: int| col(u, v), n);
    let ss_rows = |v: int| sum_to(|u: int| ss(v, u), n);
    let ts_rows = |v: int| sum_to(|u: int| ts(v, u), n);
    assert forall|v: int| 0 <= v < n implies #[trigger] cols(v) == ss_rows(v) + ts_rows(v) by {
        lemma_sum_add(|u: int| ss(v, u), |u: int| ts(v, u), |u: int| col(u, v), n);
    }
    lemma_sum_add(ss_rows, ts_rows, cols, n);
    // Net: the two sums differ term by term.
    lemma_sum_add(
        |u: int| if side[u] { out_of(h, n, u) - into(h, n, u) } else { 0 },
        ins,
        outs,
        n,
    );
    let ss_out = |u: int| sum_to(|v: int| ss(u, v), n);
    let st_out = |u: int| sum_to(|v: int| st(u, v), n);
    let st_def = |u: int| sum_to(|v: int| if side[u] && !side[v] { h(u, v) } else { 0 }, n);
    let ts_out = |u: int| sum_to(|v: int| ts(u, v), n);
    let ts_def = |u: int| sum_to(|v: int| if !side[u] && side[v] { h(u, v) } else { 0 }, n);
    assert forall|u: int| 0 <= u < n implies #[trigger] st_out(u) == st_def(u) by {
        lemma_sum_ext(|v: int| st(u, v), |v: int| if side[u] && !side[v] { h(u, v) } else { 0 }, n);
    }
    assert forall|u: int| 0 <= u < n implies #[trigger] ts_out(u) == ts_def(u) by {
        lemma_sum_ext(|v: int| ts(u, v), |v: int| if !side[u] && side[v] { h(u, v) } else { 0 }, n);
    }
    assert forall|u: int| 0 <= u < n implies #[trigger] ss_rows(u) == ss_out(u) by {}
    lemma_sum_ext(st_out, st_def, n);
    lemma_sum_ext(ts_out, ts_def, n);
    lemma_sum_ext(ss_rows, ss_out, n);
}

/// No flow moves more than a cut can carry: whatever crosses from the
/// source's side to the sink's side fits in the capacity of the edges
/// between them, and nothing else leaves the source's side for good.
pub proof fn law_no_flow_exceeds_a_cut(c: Seq<u32>, n: int, source: int, sink: int, f: spec_fn(int, int) -> int, side: Seq<bool>)
    requires
        c.len() == n * n,
        0 <= source < n,
        0 <= sink < n,
        is_flow(c, n, source, sink, f),
        is_cut(n, source, sink, side),
    ensures
        flow_value(f, n, source) <= cut_capacity(c, n, side),
{
    lemma_net_out_of_side(f, n, side);
    let net = |u: int| if side[u] { out_of(f, n, u) - into(f, n, u) } else { 0 };
    assert forall|u: int| 0 <= u < n && u != source implies #[trigger] net(u) == 0 by {
        if side[u] {
            assert(u != sink);
            assert(out_of(f, n, u) == into(f, n, u));
        }
    }
    lemma_sum_single(net, source, n);
    // What crosses out fits in the cut; what crosses back is not negative.
    let st = |u: int| sum_to(|v: int| if side[u] && !side[v] { f(u, v) } else { 0 }, n);
    let cap = |u: int| sum_to(|v: int| if side[u] && !side[v] { cell(c, n, u, v) as int } else { 0 }, n);
    assert forall|u: int| 0 <= u < n implies #[trigger] st(u) <= cap(u) by {
        assert forall|v: int| 0 <= v < n implies #[trigger] f(u, v) <= cell(c, n, u, v) by {}
        lemma_sum_mono(
            |v: int| if side[u] && !side[v] { f(u, v) } else { 0 },
            |v: int| if side[u] && !side[v] { cell(c, n, u, v) as int } else { 0 },
            n,
        );
    }
    lemma_sum_mono(st, cap, n);
    let ts = |u: int| sum_to(|v: int| if !side[u] && side[v] { f(u, v) } else { 0 }, n);
    let zero = |u: int| 0int;
    assert forall|u: int| 0 <= u < n implies #[trigger] zero(u) <= ts(u) by {
        assert forall|v: int| 0 <= v < n implies 0 <= #[trigger] f(u, v) by {}
        lemma_sum_mono(|v: int| 0int, |v: int| if !side[u] && side[v] { f(u, v) } else { 0 }, n);
        lemma_sum_single(|v: int| 0int, n, n);
    }
    lemma_sum_mono(zero, ts, n);
    lemma_sum_single(zero, n, n);
}

/// A flow moves no more than it carries on one edge `(x, y)` leaving a
/// cut's source side, plus that cut's capacity in a second network `c0`
/// that gives `(x, y)` nothing and bounds the flow's network everywhere
/// else.
pub proof fn law_flow_within_cut_and_edge(c: Seq<u32>, c0: Seq<u32>, n: int, source: int, sink: int, f: spec_fn(int, int) -> int, side: Seq<bool>, x: int, y: int)
    requires
        c.len() == n * n,
        c0.len() == n * n,
        0 <= source < n,
        0 <= sink < n,
        0 <= x < n,
        0 <= y < n,
        is_flow(c, n, source, sink, f),
        is_cut(n, source, sink, side),
        side[x],
        !side[y],
        cell(c0, n, x, y) == 0,
        forall|u: int, v: int| 0 <= u < n && 0 <= v < n && !(u == x && v == y) ==> #[trigger] cell(c, n, u, v) <= cell(c0, n, u, v),
    ensures
        flow_value(f, n, source) <= f(x, y) + cut_capacity(c0, n, side),
{
    lemma_net_out_of_side(f, n, side);
    let net = |u: int| if side[u] { out_of(f, n, u) - into(f, n, u) } else { 0 };
    assert forall|u: int| 0 <= u < n && u != source implies #[trigger] net(u) == 0 by {
        if side[u] {
            assert(u != sink);
            assert(out_of(f, n, u) == into(f, n, u));
        }
    }
    lemma_sum_single(net, source, n);
    assert forall|u: int, v: int| 0 <= u < n && 0 <= v < n && !(u == x && v == y) implies #[trigger] f(u, v) <= cell(c0, n, u, v) by {
        assert(f(u, v) <= cell(c, n, u, v));
    }
    lemma_crossing_within(f, c0, n, side, x, y);
    let ts = |u: int| sum_to(|v: int| if !side[u] && side[v] { f(u, v) } else { 0 }, n);
    let zero = |u: int| 0int;
    assert forall|u: int| 0 <= u < n implies #[trigger] zero(u) <= ts(u) by {
        assert forall|v: int| 0 <= v < n implies 0 <= #[trigger] f(u, v) by {}
        lemma_sum_mono(|v: int| 0int, |v: int| if !side[u] && side[v] { f(u, v) } else { 0 }, n);
        lemma_sum_single(|v: int| 0int, n, n);
    }
    lemma_sum_mono(zero, ts, n);
    lemma_sum_single(zero, n, n);
}

/// A row's running total is the sum of its cells.
proof fn lemma_row_sum_is_sum(m: Seq<u32>, n: int, u: int, k: int)
    ensures
        row_sum(m, n, u, k) == sum_to(|v: int| cell(m, n, u, v) as int, k),
    decreases k,
{
    if k > 0 {
        lemma_row_sum_is_sum(m, n, u, k - 1);
    }
}

/// Start from capacities `c` and end at residuals `r` in which every pair of
/// opposite residuals keeps its sum and every node but the source and the
/// sink keeps its outgoing total. Then what left the source is what the net
/// flow (what each edge lost of its capacity) carries across any cut.
pub proof fn lemma_net_flow_crosses_every_cut(c: Seq<u32>, r: Seq<u32>, n: int, source: int, sink: int, reach: Seq<bool>)
    requires
        c.len() == n * n,
        r.len() == n * n,
        0 <= source < n,
        0 <= sink < n,
        source != sink,
        pairs_kept(r, c, n),
        rows_kept(r, c, n, source, sink),
        is_cut(n, source, sink, reach),
    ensures
        row_sum(c, n, source, n) - row_sum(r, n, source, n)
            == crossing(|u: int, v: int| cell(c, n, u, v) - cell(r, n, u, v), n, reach),
{
    let value = row_sum(c, n, source, n) - row_sum(r, n, source, n);
    // The net flow: what each edge lost of its capacity.
    let g = |u: int, v: int| cell(c, n, u, v) - cell(r, n, u, v);
    assert forall|u: int| 0 <= u < n implies #[trigger] out_of(g, n, u) == row_sum(c, n, u, n) - row_sum(r, n, u, n) by {
        lemma_row_sum_is_sum(c, n, u, n);
        lemma_row_sum_is_sum(r, n, u, n);
        lemma_sum_add(|v: int| g(u, v), |v: int| cell(r, n, u, v) as int, |v: int| cell(c, n, u, v) as int, n);
    }
    assert forall|u: int| 0 <= u < n implies #[trigger] into(g, n, u) == -out_of(g, n, u) by {
        assert forall|v: int| 0 <= v < n implies #[trigger] g(v, u) == -1 * g(u, v) by {
            assert(cell(r, n, u, v) + cell(r, n, v, u) == cell(c, n, u, v) + cell(c, n, v, u));
        }
        lemma_sum_scale(|v: int| g(u, v), |v: int| g(v, u), -1, n);
    }
    // Only the source has a net outflow on its side.
    lemma_net_out_of_side(g, n, reach);
    let net = |u: int| if reach[u] { out_of(g, n, u) - into(g, n, u) } else { 0 };
    assert forall|u: int| 0 <= u < n && u != source implies #[trigger] net(u) == 0 by {
        if reach[u] {
            assert(u != sink);
            assert(row_sum(r, n, u, n) == row_sum(c, n, u, n));
            assert(out_of(g, n, u) == 0);
            assert(into(g, n, u) == -out_of(g, n, u));
        }
    }
    lemma_sum_single(net, source, n);
    assert(into(g, n, source) == -out_of(g, n, source));
    // What crosses back is the opposite of what crosses out.
    let ts = |u: int, v: int| if !reach[u] && reach[v] { g(u, v) } else { 0 };
    let bk = |u: int, v: int| if !reach[u] && reach[v] { g(v, u) } else { 0 };
    lemma_sum_swap(bk, n, n);
    let ts_rows = |u: int| sum_to(|v: int| ts(u, v), n);
    let bk_rows = |u: int| sum_to(|v: int| bk(u, v), n);
    let bk_cols = |v: int| sum_to(|u: int| bk(u, v), n);
    let st_rows = |u: int| sum_to(|v: int| if reach[u] && !reach[v] { g(u, v) } else { 0 }, n);
    assert forall|u: int| 0 <= u < n implies #[trigger] ts_rows(u) == -1 * bk_rows(u) by {
        assert forall|v: int| 0 <= v < n implies #[trigger] ts(u, v) == -1 * bk(u, v) by {
            assert(cell(r, n, u, v) + cell(r, n, v, u) == cell(c, n, u, v) + cell(c, n, v, u));
        }
        lemma_sum_scale(|v: int| bk(u, v), |v: int| ts(u, v), -1, n);
    }
    lemma_sum_scale(bk_rows, ts_rows, -1, n);
    assert forall|v: int| 0 <= v < n implies #[trigger] bk_cols(v) == st_rows(v) by {
        lemma_sum_ext(|u: int| bk(u, v), |u: int| if reach[v] && !reach[u] { g(v, u) } else { 0 }, n);
    }
    lemma_sum_ext(bk_cols, st_rows, n);
    let st_def = |u: int| sum_to(|v: int| if reach[u] && !reach[v] { g(u, v) } else { 0 }, n);
    assert(crossing(g, n, reach) == sum_to(st_def, n));
    assert(out_of(g, n, source) == value);
    assert(sum_to(net, n) == 2 * value);
    let ts_def = |u: int| sum_to(|v: int| if !reach[u] && reach[v] { g(u, v) } else { 0 }, n);
    assert forall|u: int| 0 <= u < n implies #[trigger] ts_rows(u) == ts_def(u) by {
        lemma_sum_ext(|v: int| ts(u, v), |v: int| if !reach[u] && reach[v] { g(u, v) } else { 0 }, n);
    }
    lemma_sum_ext(ts_rows, ts_def, n);
    assert(crossing_back(g, n, reach) == sum_to(ts_rows, n));
    assert(sum_to(bk_rows, n) == sum_to(bk_cols, n));
    assert(value == crossing(g, n, reach));
}

/// The certificate of a maximum flow. Start from capacities `c` and end at
/// residuals `r` in which every pair of opposite residuals keeps its sum and
/// every node but the source and the sink keeps its outgoing total. If the
/// nodes the source can still reach along positive residuals leave the sink
/// out, then what left the source is the capacity of that cut, and it is
/// the largest amount any flow in `c` can move.
pub proof fn lemma_residual_certifies_max(c: Seq<u32>, r: Seq<u32>, n: int, source: int, sink: int, reach: Seq<bool>)
    requires
        c.len() == n * n,
        r.len() == n * n,
        0 <= source < n,
        0 <= sink < n,
        source != sink,
        pairs_kept(r, c, n),
        rows_kept(r, c, n, source, sink),
        separates(r, n, source, sink, reach),
    ensures
        row_sum(c, n, source, n) - row_sum(r, n, source, n) == cut_capacity(c, n, reach),
        is_max_flow_value(c, n, source, sink, row_sum(c, n, source, n) - row_sum(r, n, source, n)),
        is_flow(c, n, source, sink, residual_flow(c, r, n)),
        flow_value(residual_flow(c, r, n), n, source) == row_sum(c, n, source, n) - row_sum(r, n, source, n),
{
    let value = row_sum(c, n, source, n) - row_sum(r, n, source, n);
    let g = |u: int, v: int| cell(c, n, u, v) - cell(r, n, u, v);
    lemma_net_flow_crosses_every_cut(c, r, n, source, sink, reach);
    // Across the cut nothing is left, so what crossed is the whole capacity.
    let st_rows = |u: int| sum_to(|v: int| if reach[u] && !reach[v] { g(u, v) } else { 0 }, n);
    let cap_rows = |u: int| sum_to(|v: int| if reach[u] && !reach[v] { cell(c, n, u, v) as int } else { 0 }, n);
    assert forall|u: int| 0 <= u < n implies #[trigger] st_rows(u) == cap_rows(u) by {
        assert forall|v: int| 0 <= v < n && reach[u] && !reach[v] implies #[trigger] cell(r, n, u, v) == 0 by {}
        lemma_sum_ext(
            |v: int| if reach[u] && !reach[v] { g(u, v) } else { 0 },
            |v: int| if reach[u] && !reach[v] { cell(c, n, u, v) as int } else { 0 },
            n,
        );
    }
    lemma_sum_ext(st_rows, cap_rows, n);
    assert(value == cut_capacity(c, n, reach));
    // Out of each node the net flow moves what the node's row lost.
    assert forall|u: int| 0 <= u < n implies #[trigger] out_of(g, n, u) == row_sum(c, n, u, n) - row_sum(r, n, u, n) by {
        lemma_row_sum_is_sum(c, n, u, n);
        lemma_row_sum_is_sum(r, n, u, n);
        lemma_sum_add(|v: int| g(u, v), |v: int| cell(r, n, u, v) as int, |v: int| cell(c, n, u, v) as int, n);
    }
    // No flow beats the cut.
    assert forall|f: spec_fn(int, int) -> int| #[trigger] is_flow(c, n, source, sink, f) implies flow_value(f, n, source) <= value by {
        law_no_flow_exceeds_a_cut(c, n, source, sink, f, reach);
    }
    // The net flow's forward part is a flow that moves it.
    let pos = |u: int, v: int| if g(u, v) > 0 { g(u, v) } else { 0 };
    assert forall|u: int| 0 <= u < n implies #[trigger] out_of(pos, n, u) - into(pos, n, u) == out_of(g, n, u) by {
        assert forall|v: int| 0 <= v < n implies #[trigger] g(u, v) == pos(u, v) + (-1) * pos(v, u) by {
            assert(cell(r, n, u, v) + cell(r, n, v, u) == cell(c, n, u, v) + cell(c, n, v, u));
        }
        lemma_sum_scale(|v: int| pos(v, u), |v: int| (-1) * pos(v, u), -1, n);
        lemma_sum_add(|v: int| pos(u, v), |v: int| (-1) * pos(v, u), |v: int| g(u, v), n);
    }
    assert(is_flow(c, n, source, sink, pos));
    assert(flow_value(pos, n, source) == value);
    assert(pos =~= residual_flow(c, r, n));
}

/// A network has one maximum flow value: two amounts that each some flow
/// moves and that no flow beats are equal.
pub proof fn law_max_flow_value_is_unique(c: Seq<u32>, n: int, source: int, sink: int, v1: int, v2: int)
    requires
        is_max_flow_value(c, n, source, sink, v1),
        is_max_flow_value(c, n, source, sink, v2),
    ensures
        v1 == v2,
{
    let f1 = choose|f: spec_fn(int, int) -> int| #[trigger] is_flow(c, n, source, sink, f) && flow_value(f, n, source) == v1;
    let f2 = choose|f: spec_fn(int, int) -> int| #[trigger] is_flow(c, n, source, sink, f) && flow_value(f, n, source) == v2;
    assert(is_flow(c, n, source, sink, f1));
    assert(is_flow(c, n, source, sink, f2));
}

/// What a flow `h` carries across a cut is at most the capacity `c` of the
/// crossing edges other than `(x, y)`, plus what `h` carries on `(x, y)`,
/// when `h` stays within `c` everywhere but on that one crossing edge, whose
/// capacity in `c` is zero.
pub proof fn lemma_crossing_within(h: spec_fn(int, int) -> int, c: Seq<u32>, n: int, side: Seq<bool>, x: int, y: int)
    requires
        0 <= n,
        side.len() == n,
        0 <= x < n,
        0 <= y < n,
        side[x],
        !side[y],
        cell(c, n, x, y) == 0,
        forall|u: int, v: int| 0 <= u < n && 0 <= v < n && !(u == x && v == y) ==> #[trigger] h(u, v) <= cell(c, n, u, v),
    ensures
        crossing(h, n, side) <= h(x, y) + cut_capacity(c, n, side),
{
    let hx = h(x, y);
    let k = |u: int, v: int| if u == x && v == y { hx } else { cell(c, n, u, v) as int };
    // Term by term, `h` crosses no more than `k`.
    let hr = |u: int| sum_to(|v: int| if side[u] && !side[v] { h(u, v) } else { 0 }, n);
    let kr = |u: int| sum_to(|v: int| if side[u] && !side[v] { k(u, v) } else { 0 }, n);
    assert forall|u: int| 0 <= u < n implies #[trigger] hr(u) <= kr(u) by {
        lemma_sum_mono(|v: int| if side[u] && !side[v] { h(u, v) } else { 0 }, |v: int| if side[u] && !side[v] { k(u, v) } else { 0 }, n);
    }
    lemma_sum_mono(hr, kr, n);
    // And `k` is the capacity plus the one designated term.
    let cr = |u: int| sum_to(|v: int| if side[u] && !side[v] { cell(c, n, u, v) as int } else { 0 }, n);
    let dr = |u: int| if u == x { hx } else { 0int };
    assert forall|u: int| 0 <= u < n implies #[trigger] kr(u) == cr(u) + dr(u) by {
        let dv = |v: int| if u == x && v == y { hx } else { 0int };
        lemma_sum_add(|v: int| if side[u] && !side[v] { cell(c, n, u, v) as int } else { 0 }, dv, |v: int| if side[u] && !side[v] { k(u, v) } else { 0 }, n);
        lemma_sum_single(dv, y, n);
    }
    lemma_sum_add(cr, dr, kr, n);
    lemma_sum_single(dr, x, n);
}

} // verus!
