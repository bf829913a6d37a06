use vstd::prelude::*;

use crate::traits::Float;

verus! {

/// A struct holding the data necessary to represent a graph that will be
/// spatialized by the FA2 algorithm.
///
/// Nodes are stored column-wise: the `n`-th entry of each per-node vector
/// describes node `n`. Edges are `(source, target, weight)` triples.
#[derive(Debug)]
pub struct FA2Data<F: Float> {
    pub xs: Vec<F>,
    pub ys: Vec<F>,
    pub ms: Vec<F>,
    pub delta_xs: Vec<F>,
    pub delta_ys: Vec<F>,
    pub old_delta_xs: Vec<F>,
    pub old_delta_ys: Vec<F>,
    pub convergences: Vec<F>,
    pub edges: Vec<(usize, usize, F)>,
}

/// Every edge of `edges` joins two of the first `order` nodes.
pub open spec fn edges_within<F>(edges: Seq<(usize, usize, F)>, order: nat) -> bool {
    forall|k: int| 0 <= k < edges.len() ==> (#[trigger] edges[k]).0 < order && edges[k].1 < order
}

/// One step of the extent computation: widen extent `e` to hold `(x, y)`.
pub open spec fn extent_step<F: Float>(e: (F, F, F, F), x: F, y: F) -> (F, F, F, F) {
    (
        if x.spec_lt(e.0) { x } else { e.0 },
        if e.1.spec_lt(x) { x } else { e.1 },
        if y.spec_lt(e.2) { y } else { e.2 },
        if e.3.spec_lt(y) { y } else { e.3 },
    )
}

/// The `(min_x, max_x, min_y, max_y)` extent of the first `n` positions,
/// widened position by position; `None` when there are none.
pub open spec fn extent_of<F: Float>(xs: Seq<F>, ys: Seq<F>, n: nat) -> Option<(F, F, F, F)>
    decreases n,
{
    if n == 0 {
        None
    } else {
        let x = xs[n - 1];
        let y = ys[n - 1];
        match extent_of(xs, ys, (n - 1) as nat) {
            None => Some((x, x, y, y)),
            Some(e) => Some(extent_step(e, x, y)),
        }
    }
}

/// The `k`-th value of a counter that starts at zero and is incremented by
/// one, in `F`.
pub open spec fn counter<F: Float>(k: nat) -> F
    decreases k,
{
    if k == 0 {
        F::spec_zero()
    } else {
        counter::<F>((k - 1) as nat).spec_add(F::spec_one())
    }
}

/// The angle at which the circular layout places node `k` out of `order`.
pub open spec fn circle_angle<F: Float>(k: nat, order: usize) -> F {
    counter::<F>(k).spec_mul(F::spec_tau()).spec_div(F::spec_from_usize(order))
}

/// The masses after adding an edge of weight `w` between `i` and `j`: both
/// endpoints gain `w`, one after the other (twice for a loop).
pub open spec fn masses_with_edge<F: Float>(ms: Seq<F>, i: usize, j: usize, w: F) -> Seq<F> {
    let first = ms.update(i as int, ms[i as int].spec_add(w));
    first.update(j as int, first[j as int].spec_add(w))
}

/// The extent's bounds are coordinates of actual nodes.
pub proof fn lemma_extent_attained<F: Float>(xs: Seq<F>, ys: Seq<F>, n: nat)
    requires
        n <= xs.len(),
        n <= ys.len(),
    ensures
        extent_of(xs, ys, n) is None <==> n == 0,
        extent_of(xs, ys, n) matches Some(e) ==> {
            &&& exists|i: int| 0 <= i < n && xs[i] == e.0
            &&& exists|i: int| 0 <= i < n && xs[i] == e.1
            &&& exists|i: int| 0 <= i < n && ys[i] == e.2
            &&& exists|i: int| 0 <= i < n && ys[i] == e.3
        },
    decreases n,
{
    if n > 0 {
        lemma_extent_attained(xs, ys, (n - 1) as nat);
        let last = n - 1;
        assert(xs[last] == xs[last] && ys[last] == ys[last]);
    }
}

/// The number of endpoints of edge `e` that are node `n` (two for a loop).
pub open spec fn endpoint_count<F>(e: (usize, usize, F), n: int) -> nat {
    (if e.0 == n { 1nat } else { 0nat }) + (if e.1 == n { 1nat } else { 0nat })
}

/// The degree of node `n`: how many edge endpoints are `n` (a loop counts
/// twice).
pub open spec fn degree<F>(edges: Seq<(usize, usize, F)>, n: int) -> nat
    decreases edges.len(),
{
    if edges.len() == 0 {
        0
    } else {
        degree(edges.drop_last(), n) + endpoint_count(edges.last(), n)
    }
}

/// The sum of the degrees of the nodes before `v`.
pub open spec fn degree_prefix<F>(edges: Seq<(usize, usize, F)>, v: int) -> nat
    decreases v,
{
    if v <= 0 {
        0
    } else {
        degree_prefix(edges, v - 1) + degree(edges, v - 1)
    }
}

/// The stubs that edge `e = (source, target, w)` contributes to the
/// adjacency list of node `n`: `(target, w)` when `n` is its source,
/// `(source, w)` when `n` is its target. A loop on `n` fills the first of its
/// two slots with `(n, w)` and leaves the second one at `(0, 0)`.
pub open spec fn edge_stubs_at<F: Float>(e: (usize, usize, F), n: int) -> Seq<(usize, F)> {
    if e.0 == n && e.1 == n {
        seq![(e.0, e.2), (0usize, F::spec_zero())]
    } else if e.0 == n {
        seq![(e.1, e.2)]
    } else if e.1 == n {
        seq![(e.0, e.2)]
    } else {
        Seq::empty()
    }
}

/// The adjacency list of node `n`: the stubs of its edges, latest edge
/// first.
pub open spec fn incident_stubs<F: Float>(edges: Seq<(usize, usize, F)>, n: int) -> Seq<
    (usize, F),
>
    decreases edges.len(),
{
    if edges.len() == 0 {
        Seq::empty()
    } else {
        edge_stubs_at(edges.last(), n) + incident_stubs(edges.drop_last(), n)
    }
}

/// A node's adjacency list holds one stub per endpoint of its edges at the
/// node (a loop gives two).
pub proof fn lemma_incident_len<F: Float>(edges: Seq<(usize, usize, F)>, n: int)
    ensures
        incident_stubs(edges, n).len() == degree(edges, n),
    decreases edges.len(),
{
    if edges.len() > 0 {
        lemma_incident_len(edges.drop_last(), n);
    }
}

proof fn lemma_degree_bound<F>(edges: Seq<(usize, usize, F)>, n: int)
    ensures
        degree(edges, n) <= 2 * edges.len(),
    decreases edges.len(),
{
    if edges.len() > 0 {
        lemma_degree_bound(edges.drop_last(), n);
    }
}

/// The degree of a node outside the graph is zero.
proof fn lemma_degree_outside<F>(edges: Seq<(usize, usize, F)>, order: int, n: int)
    requires
        0 <= order,
        edges_within(edges, order as nat),
        n >= order,
    ensures
        degree(edges, n) == 0,
    decreases edges.len(),
{
    if edges.len() > 0 {
        let rest = edges.drop_last();
        assert(edges.last() == edges[edges.len() - 1]);
        assert(edges_within(rest, order as nat)) by {
            assert forall|k: int| 0 <= k < rest.len() implies (#[trigger] rest[k]).0 < order
                && rest[k].1 < order by {
                assert(rest[k] == edges[k]);
            }
        }
        lemma_degree_outside(rest, order, n);
    }
}

/// Degrees grow edge by edge.
proof fn lemma_degree_take<F>(edges: Seq<(usize, usize, F)>, k: int, n: int)
    requires
        0 <= k < edges.len(),
    ensures
        degree(edges.take(k + 1), n) == degree(edges.take(k), n) + endpoint_count(edges[k], n),
{
    assert(edges.take(k + 1).drop_last() =~= edges.take(k));
}

proof fn lemma_degree_take_le<F>(edges: Seq<(usize, usize, F)>, k: int, n: int)
    requires
        0 <= k <= edges.len(),
    ensures
        degree(edges.take(k), n) <= degree(edges, n),
    decreases edges.len() - k,
{
    if k < edges.len() {
        lemma_degree_take(edges, k, n);
        lemma_degree_take_le(edges, k + 1, n);
    } else {
        assert(edges.take(k) =~= edges);
    }
}

proof fn lemma_degree_prefix_push<F>(edges: Seq<(usize, usize, F)>, e: (usize, usize, F), v: int)
    ensures
        degree_prefix(edges.push(e), v) == degree_prefix(edges, v) + (if 0 <= e.0 < v {
            1nat
        } else {
            0nat
        }) + (if 0 <= e.1 < v {
            1nat
        } else {
            0nat
        }),
    decreases v,
{
    if v > 0 {
        lemma_degree_prefix_push(edges, e, v - 1);
        assert(edges.push(e).drop_last() =~= edges);
    }
}

/// The degrees of the nodes of a graph sum to twice its number of edges.
pub proof fn lemma_degree_prefix_total<F>(edges: Seq<(usize, usize, F)>, order: int)
    requires
        edges_within(edges, order as nat),
        order >= 0,
    ensures
        degree_prefix(edges, order) == 2 * edges.len(),
    decreases edges.len(),
{
    if edges.len() == 0 {
        lemma_degree_prefix_zero(edges, order);
    } else {
        let rest = edges.drop_last();
        assert(edges_within(rest, order as nat)) by {
            assert forall|k: int| 0 <= k < rest.len() implies (#[trigger] rest[k]).0 < order
                && rest[k].1 < order by {
                assert(rest[k] == edges[k]);
            }
        }
        lemma_degree_prefix_total(rest, order);
        assert(rest.push(edges.last()) =~= edges);
        assert(edges.last() == edges[edges.len() - 1]);
        lemma_degree_prefix_push(rest, edges.last(), order);
    }
}

proof fn lemma_degree_prefix_zero<F>(edges: Seq<(usize, usize, F)>, v: int)
    requires
        edges.len() == 0,
    ensures
        degree_prefix(edges, v) == 0,
    decreases v,
{
    if v > 0 {
        lemma_degree_prefix_zero(edges, v - 1);
    }
}

proof fn lemma_degree_prefix_mono<F>(edges: Seq<(usize, usize, F)>, v: int, w: int)
    requires
        v <= w,
    ensures
        degree_prefix(edges, v) <= degree_prefix(edges, w),
    decreases w - v,
{
    if v < w {
        lemma_degree_prefix_mono(edges, v, w - 1);
    }
}

/// The state of the adjacency lists after the first `k` edges were filled
/// in: the list of node `u` ends at `ends[u]` and starts `degree(take(k),
/// u)` slots before, holding the stubs of those edges; the slots of `u`
/// before its list still hold `(0, 0)`.
spec fn fill_inv<F: Float>(
    edges: Seq<(usize, usize, F)>,
    k: int,
    order: int,
    ends: Seq<usize>,
    offsets: Seq<usize>,
    stubs: Seq<(usize, F)>,
) -> bool {
    &&& offsets.len() == order + 1
    &&& stubs.len() == 2 * edges.len()
    &&& offsets[order] == 2 * edges.len()
    &&& forall|u: int|
        0 <= u < order ==> #[trigger] offsets[u] + degree(edges.take(k), u) == ends[u]
    &&& forall|u: int|
        0 <= u < order ==> stubs.subrange(#[trigger] offsets[u] as int, ends[u] as int)
            == incident_stubs(edges.take(k), u)
    &&& forall|u: int, j: int|
        0 <= u < order && degree_prefix(edges, u) <= j < #[trigger] offsets[u] ==> #[trigger] stubs[j]
            == (0usize, F::spec_zero())
}

/// The slots of node `u` lie below those of any later node.
proof fn lemma_ranges_disjoint<F>(edges: Seq<(usize, usize, F)>, u: int, v: int)
    requires
        0 <= u < v,
    ensures
        degree_prefix(edges, u + 1) <= degree_prefix(edges, v),
{
    lemma_degree_prefix_mono(edges, u + 1, v);
}

/// What [`fill_inv`] needs from its context, before edge `k` is filled in.
spec fn fill_step_pre<F: Float>(
    edges: Seq<(usize, usize, F)>,
    k: int,
    order: int,
    ends: Seq<usize>,
    offsets: Seq<usize>,
    stubs: Seq<(usize, F)>,
) -> bool {
    &&& 0 <= k < edges.len()
    &&& order >= 0
    &&& edges_within(edges, order as nat)
    &&& ends.len() == order + 1
    &&& forall|u: int| 0 <= u <= order ==> #[trigger] ends[u] == degree_prefix(edges, u + 1)
    &&& degree_prefix(edges, order) == 2 * edges.len()
    &&& fill_inv(edges, k, order, ends, offsets, stubs)
}

/// The offsets once edge `k` took one slot at each of its endpoints.
spec fn step_offsets<F>(edges: Seq<(usize, usize, F)>, k: int, offsets: Seq<usize>) -> Seq<usize> {
    let (s, t, w) = edges[k];
    let o1 = offsets.update(s as int, (offsets[s as int] - 1) as usize);
    o1.update(t as int, (o1[t as int] - 1) as usize)
}

/// The stubs once edge `k` was written into the slots it took.
spec fn step_stubs<F>(edges: Seq<(usize, usize, F)>, k: int, offsets: Seq<usize>, stubs: Seq<(usize, F)>) -> Seq<(usize, F)> {
    let (s, t, w) = edges[k];
    let o2 = step_offsets(edges, k, offsets);
    stubs.update(o2[s as int] as int, (t, w)).update(o2[t as int] as int, (s, w))
}

/// Where edge `k` writes: within the slots of its endpoints, below their
/// current lists and at or above their first slot.
proof fn lemma_step_slots<F: Float>(
    edges: Seq<(usize, usize, F)>,
    k: int,
    order: int,
    ends: Seq<usize>,
    offsets: Seq<usize>,
    stubs: Seq<(usize, F)>,
)
    requires
        fill_step_pre(edges, k, order, ends, offsets, stubs),
    ensures
        ({
            let (s, t, w) = edges[k];
            let si = s as int;
            let ti = t as int;
            let o2 = step_offsets(edges, k, offsets);
            &&& 0 <= si < order && 0 <= ti < order
            &&& offsets[si] >= 1
            &&& offsets.update(si, (offsets[si] - 1) as usize)[ti] >= 1
            &&& degree_prefix(edges, si) <= o2[si] < ends[si] <= 2 * edges.len()
            &&& degree_prefix(edges, ti) <= o2[ti] < ends[ti] <= 2 * edges.len()
            &&& ends[si] == degree_prefix(edges, si) + degree(edges, si)
            &&& ends[ti] == degree_prefix(edges, ti) + degree(edges, ti)
            &&& si != ti ==> o2[si] == offsets[si] - 1 && o2[ti] == offsets[ti] - 1
            &&& si == ti ==> o2[si] == offsets[si] - 2
            &&& si != ti ==> o2[si] != o2[ti]
            &&& si != ti ==> (o2[ti] < degree_prefix(edges, si) || o2[ti] >= ends[si])
            &&& si != ti ==> (o2[si] < degree_prefix(edges, ti) || o2[si] >= ends[ti])
            &&& forall|u: int|
                0 <= u < order && u != si && u != ti ==> (o2[si] < degree_prefix(edges, u)
                    || o2[si] >= #[trigger] ends[u]) && (o2[ti] < degree_prefix(edges, u) || o2[ti]
                    >= ends[u]) && o2[u] == offsets[u]
        }),
{
    let e = edges[k];
    let (s, t, w) = e;
    let si = s as int;
    let ti = t as int;
    assert(si < order && ti < order);
    let tk = edges.take(k);

    lemma_degree_take(edges, k, si);
    lemma_degree_take(edges, k, ti);
    lemma_degree_take_le(edges, k + 1, si);
    lemma_degree_take_le(edges, k + 1, ti);
    assert(ends[si] == degree_prefix(edges, si) + degree(edges, si));
    assert(ends[ti] == degree_prefix(edges, ti) + degree(edges, ti));
    assert(offsets[si] + degree(tk, si) == ends[si]);
    assert(offsets[ti] + degree(tk, ti) == ends[ti]);
    lemma_degree_prefix_mono(edges, si + 1, order);
    lemma_degree_prefix_mono(edges, ti + 1, order);

    let o2 = step_offsets(edges, k, offsets);
    assert forall|u: int|
        0 <= u < order && u != si && u != ti implies (o2[si] < degree_prefix(edges, u) || o2[si]
        >= #[trigger] ends[u]) && (o2[ti] < degree_prefix(edges, u) || o2[ti] >= ends[u]) && o2[u]
        == offsets[u] by {
        assert(ends[u] == degree_prefix(edges, u + 1));
        if u < si {
            lemma_ranges_disjoint(edges, u, si);
        } else {
            lemma_ranges_disjoint(edges, si, u);
        }
        if u < ti {
            lemma_ranges_disjoint(edges, u, ti);
        } else {
            lemma_ranges_disjoint(edges, ti, u);
        }
    }
    if si != ti {
        if si < ti {
            lemma_ranges_disjoint(edges, si, ti);
        } else {
            lemma_ranges_disjoint(edges, ti, si);
        }
    }
}

/// After edge `k`, the list of node `u` is its new stubs followed by its
/// previous list.
proof fn lemma_step_range<F: Float>(
    edges: Seq<(usize, usize, F)>,
    k: int,
    order: int,
    ends: Seq<usize>,
    offsets: Seq<usize>,
    stubs: Seq<(usize, F)>,
    u: int,
)
    requires
        fill_step_pre(edges, k, order, ends, offsets, stubs),
        0 <= u < order,
    ensures
        step_stubs(edges, k, offsets, stubs).subrange(
            step_offsets(edges, k, offsets)[u] as int,
            ends[u] as int,
        ) == incident_stubs(edges.take(k + 1), u),
{
    let e = edges[k];
    let (s, t, w) = e;
    let si = s as int;
    let ti = t as int;
    let tk = edges.take(k);
    let tk1 = edges.take(k + 1);
    assert(tk1.drop_last() =~= tk);
    assert(tk1.last() == e);
    assert(incident_stubs(tk1, u) == edge_stubs_at(e, u) + incident_stubs(tk, u));
    lemma_step_slots(edges, k, order, ends, offsets, stubs);
    let o2 = step_offsets(edges, k, offsets);
    let st2 = step_stubs(edges, k, offsets, stubs);

    lemma_degree_take(edges, k, u);
    lemma_degree_take_le(edges, k, u);
    lemma_degree_prefix_mono(edges, u + 1, order);
    assert(ends[u] == degree_prefix(edges, u) + degree(edges, u));
    assert(offsets[u] + degree(tk, u) == ends[u]);
    let old_range = stubs.subrange(offsets[u] as int, ends[u] as int);
    assert(old_range == incident_stubs(tk, u));
    if u != si && u != ti {
        assert(o2[si] < degree_prefix(edges, u) || o2[si] >= ends[u]);
        assert(edge_stubs_at(e, u) =~= Seq::<(usize, F)>::empty());
        assert(st2.subrange(o2[u] as int, ends[u] as int) =~= old_range);
        assert(incident_stubs(tk1, u) =~= incident_stubs(tk, u));
    } else if si == ti {
        let a = o2[u] as int;
        assert(stubs[a + 1] == (0usize, F::spec_zero()));
        assert(st2.subrange(a, ends[u] as int) =~= seq![(s, w), (0usize, F::spec_zero())]
            + old_range);
    } else {
        let a = o2[u] as int;
        if u == si {
            assert(st2.subrange(a, ends[u] as int) =~= seq![(t, w)] + old_range);
        } else {
            assert(st2.subrange(a, ends[u] as int) =~= seq![(s, w)] + old_range);
        }
    }
}

/// After edge `k`, the slots of node `u` before its list still hold `(0, 0)`.
proof fn lemma_step_free<F: Float>(
    edges: Seq<(usize, usize, F)>,
    k: int,
    order: int,
    ends: Seq<usize>,
    offsets: Seq<usize>,
    stubs: Seq<(usize, F)>,
    u: int,
    j: int,
)
    requires
        fill_step_pre(edges, k, order, ends, offsets, stubs),
        0 <= u < order,
        degree_prefix(edges, u) <= j < step_offsets(edges, k, offsets)[u],
    ensures
        step_stubs(edges, k, offsets, stubs)[j] == (0usize, F::spec_zero()),
{
    let (s, t, w) = edges[k];
    let si = s as int;
    let ti = t as int;
    lemma_step_slots(edges, k, order, ends, offsets, stubs);
    lemma_degree_take_le(edges, k, u);
    lemma_degree_prefix_mono(edges, u + 1, order);
    assert(ends[u] == degree_prefix(edges, u) + degree(edges, u));
    assert(offsets[u] + degree(edges.take(k), u) == ends[u]);
    assert(j < offsets[u]);
    assert(stubs[j] == (0usize, F::spec_zero()));
}

/// Filling in the stubs of edge `k` keeps [`fill_inv`].
proof fn lemma_fill_step<F: Float>(
    edges: Seq<(usize, usize, F)>,
    k: int,
    order: int,
    ends: Seq<usize>,
    offsets: Seq<usize>,
    stubs: Seq<(usize, F)>,
)
    requires
        0 <= k < edges.len(),
        order >= 0,
        edges_within(edges, order as nat),
        ends.len() == order + 1,
        forall|u: int| 0 <= u <= order ==> #[trigger] ends[u] == degree_prefix(edges, u + 1),
        degree_prefix(edges, order) == 2 * edges.len(),
        fill_inv(edges, k, order, ends, offsets, stubs),
    ensures
        ({
            let (s, t, w) = edges[k];
            let o1 = offsets.update(s as int, (offsets[s as int] - 1) as usize);
            let o2 = o1.update(t as int, (o1[t as int] - 1) as usize);
            let st1 = stubs.update(o2[s as int] as int, (t, w));
            let st2 = st1.update(o2[t as int] as int, (s, w));
            &&& offsets[s as int] >= 1
            &&& o1[t as int] >= 1
            &&& o2[s as int] < stubs.len()
            &&& o2[t as int] < stubs.len()
            &&& fill_inv(edges, k + 1, order, ends, o2, st2)
        }),
{
    assert(fill_step_pre(edges, k, order, ends, offsets, stubs));
    lemma_step_slots(edges, k, order, ends, offsets, stubs);
    let o2 = step_offsets(edges, k, offsets);
    let st2 = step_stubs(edges, k, offsets, stubs);
    let tk1 = edges.take(k + 1);
    assert forall|u: int| 0 <= u < order implies #[trigger] o2[u] + degree(tk1, u) == ends[u] by {
        lemma_degree_take(edges, k, u);
    }
    assert forall|u: int| 0 <= u < order implies st2.subrange(#[trigger] o2[u] as int, ends[u] as int)
        == incident_stubs(tk1, u) by {
        lemma_step_range(edges, k, order, ends, offsets, stubs, u);
    }
    assert forall|u: int, j: int|
        0 <= u < order && degree_prefix(edges, u) <= j < #[trigger] o2[u] implies #[trigger] st2[j]
        == (0usize, F::spec_zero()) by {
        lemma_step_free(edges, k, order, ends, offsets, stubs, u, j);
    }
}

/// The adjacency lists only name nodes of the graph.
pub proof fn lemma_incident_within<F: Float>(edges: Seq<(usize, usize, F)>, order: nat, n: int)
    requires
        edges_within(edges, order),
        0 <= n < order,
    ensures
        forall|i: int|
            0 <= i < incident_stubs(edges, n).len() ==> (#[trigger] incident_stubs(edges, n)[i]).0
                < order,
    decreases edges.len(),
{
    if edges.len() > 0 {
        let rest = edges.drop_last();
        let e = edges.last();
        assert(e == edges[edges.len() - 1]);
        assert(edges_within(rest, order)) by {
            assert forall|k: int| 0 <= k < rest.len() implies (#[trigger] rest[k]).0 < order
                && rest[k].1 < order by {
                assert(rest[k] == edges[k]);
            }
        }
        lemma_incident_within(rest, order, n);
        let head = edge_stubs_at(e, n);
        assert forall|i: int| 0 <= i < incident_stubs(edges, n).len() implies (
        #[trigger] incident_stubs(edges, n)[i]).0 < order by {
            if i >= head.len() {
                assert(incident_stubs(edges, n)[i] == incident_stubs(rest, n)[i - head.len()]);
            }
        }
    }
}


/// A romantic name for a variant of CSR matrix: the adjacency lists of all
/// nodes, stored one after the other.
#[derive(Debug)]
pub struct NeighborhoodIndex<F: Float> {
    node_offsets: Vec<usize>,
    edge_stubs: Vec<(usize, F)>,
}

impl<F: Float> NeighborhoodIndex<F> {
    /// Where each adjacency list starts: the list of node `n` runs from
    /// `spec_offsets()[n]` to `spec_offsets()[n + 1]` in [`Self::spec_all_stubs`].
    pub closed spec fn spec_offsets(&self) -> Seq<usize> {
        self.node_offsets@
    }

    /// All the adjacency lists, one after the other.
    pub closed spec fn spec_all_stubs(&self) -> Seq<(usize, F)> {
        self.edge_stubs@
    }

    /// The number of nodes that the index covers.
    pub open spec fn spec_order(&self) -> nat {
        (self.spec_offsets().len() - 1) as nat
    }

    /// The adjacency list of node `n`.
    pub open spec fn spec_stubs(&self, n: int) -> Seq<(usize, F)> {
        self.spec_all_stubs().subrange(self.spec_offsets()[n] as int, self.spec_offsets()[n + 1] as int)
    }

    /// The index is well formed: its offsets grow from zero to the number
    /// of stubs.
    pub open spec fn wf(&self) -> bool {
        &&& self.spec_offsets().len() >= 1
        &&& self.spec_offsets()[0] == 0
        &&& forall|i: int, j: int|
            0 <= i <= j < self.spec_offsets().len() ==> self.spec_offsets()[i]
                <= self.spec_offsets()[j]
        &&& self.spec_offsets().last() == self.spec_all_stubs().len()
    }

    /// The total number of stubs.
    pub open spec fn spec_stub_count(&self) -> nat {
        self.spec_all_stubs().len()
    }

    /// Build the adjacency lists of the graph of `data`: the list of node
    /// `n` holds, latest edge first, `(target, w)` for each edge `(n, target,
    /// w)` and `(source, w)` for each edge `(source, n, w)`.
    pub fn from(data: &FA2Data<F>) -> (index: Self)
        requires
            data.wf(),
            data.xs.len() < usize::MAX,
            data.edges.len() * 2 <= usize::MAX,
        ensures
            index.wf(),
            index.spec_order() == data.xs.len(),
            index.spec_stub_count() == 2 * data.edges.len(),
            forall|v: int|
                0 <= v <= data.xs.len() ==> #[trigger] index.spec_offsets()[v] == degree_prefix(
                    data.edges@,
                    v,
                ),
            forall|n: int|
                0 <= n < data.xs.len() ==> #[trigger] index.spec_stubs(n) == incident_stubs(
                    data.edges@,
                    n,
                ),
    {
        let order = data.order();
        let size = data.size();
        let ghost edges = data.edges@;

        // NOTE: we reserve an additional slot for convenience later when
        // we need to lookup node adjacency lists.
        let mut node_offsets: Vec<usize> = Vec::new();
        let mut v: usize = 0;
        while v < order + 1
            invariant
                order < usize::MAX,
                v <= order + 1,
                node_offsets@.len() == v,
                forall|u: int| 0 <= u < v ==> node_offsets@[u] == 0,
            decreases order + 1 - v,
        {
            node_offsets.push(0);
            v += 1;
        }

        // First we aggregate degrees
        let mut k: usize = 0;
        while k < size
            invariant
                data.wf(),
                order == data.xs.len(),
                size == data.edges.len(),
                edges == data.edges@,
                size * 2 <= usize::MAX,
                k <= size,
                node_offsets@.len() == order + 1,
                forall|u: int| 0 <= u < order ==> #[trigger] node_offsets@[u] == degree(edges.take(k as int), u),
                node_offsets@[order as int] == 0,
            decreases size - k,
        {
            let (source, target, _) = data.edges[k];
            proof {
                assert(edges[k as int].0 < order && edges[k as int].1 < order);
                lemma_degree_take(edges, k as int, source as int);
                lemma_degree_take(edges, k as int, target as int);
                lemma_degree_bound(edges.take(k + 1), source as int);
                lemma_degree_bound(edges.take(k + 1), target as int);
                assert forall|u: int| 0 <= u < order implies degree(edges.take(k + 1), u)
                    == degree(edges.take(k as int), u) + endpoint_count(edges[k as int], u) by {
                    lemma_degree_take(edges, k as int, u);
                }
            }
            node_offsets.set(source, node_offsets[source] + 1);
            node_offsets.set(target, node_offsets[target] + 1);
            k += 1;
        }
        assert(edges.take(size as int) =~= edges);

        // We compute the cumulative sum
        proof {
            lemma_degree_prefix_total(edges, order as int);
            lemma_degree_outside(edges, order as int, order as int);
        }
        let mut cumsum: usize = 0;
        let mut v: usize = 0;
        while v < order + 1
            invariant
                data.wf(),
                order == data.xs.len(),
                size == data.edges.len(),
                edges == data.edges@,
                order < usize::MAX,
                v <= order + 1,
                node_offsets@.len() == order + 1,
                cumsum == degree_prefix(edges, v as int),
                degree_prefix(edges, order as int) == 2 * size,
                degree(edges, order as int) == 0,
                size * 2 <= usize::MAX,
                forall|u: int| 0 <= u < v ==> #[trigger] node_offsets@[u] == degree_prefix(edges, u + 1),
                forall|u: int| v <= u < order ==> #[trigger] node_offsets@[u] == degree(edges, u),
                v <= order ==> node_offsets@[order as int] == 0,
            decreases order + 1 - v,
        {
            proof {
                if v < order {
                    lemma_degree_prefix_mono(edges, v + 1, order as int);
                }
            }
            cumsum = cumsum + node_offsets[v];
            node_offsets.set(v, cumsum);
            v += 1;
        }

        // Then we populate stubs
        let mut edge_stubs: Vec<(usize, F)> = Vec::new();
        let mut i: usize = 0;
        while i < size * 2
            invariant
                size * 2 <= usize::MAX,
                i <= size * 2,
                edge_stubs@.len() == i,
                forall|j: int| 0 <= j < i ==> edge_stubs@[j] == (0usize, F::spec_zero()),
            decreases size * 2 - i,
        {
            edge_stubs.push((0, F::zero()));
            i += 1;
        }

        let ghost ends = node_offsets@;
        proof {
            assert(edges.take(0) =~= Seq::<(usize, usize, F)>::empty());
            assert forall|u: int| 0 <= u < order implies edge_stubs@.subrange(
                #[trigger] node_offsets@[u] as int,
                ends[u] as int,
            ) == incident_stubs(edges.take(0), u) by {
                lemma_degree_prefix_mono(edges, u + 1, order as int);
                assert(edge_stubs@.subrange(node_offsets@[u] as int, ends[u] as int) =~= Seq::<
                    (usize, F),
                >::empty());
            }
            assert forall|u: int, j: int|
                0 <= u < order && degree_prefix(edges, u) <= j < #[trigger] node_offsets@[u] implies #[trigger] edge_stubs@[j]
                == (0usize, F::spec_zero()) by {
                lemma_degree_prefix_mono(edges, u + 1, order as int);
            }
        }
        let mut k: usize = 0;
        while k < size
            invariant
                data.wf(),
                order == data.xs.len(),
                size == data.edges.len(),
                edges == data.edges@,
                k <= size,
                ends.len() == order + 1,
                forall|u: int| 0 <= u <= order ==> #[trigger] ends[u] == degree_prefix(edges, u + 1),
                degree_prefix(edges, order as int) == 2 * size,
                fill_inv(edges, k as int, order as int, ends, node_offsets@, edge_stubs@),
            decreases size - k,
        {
            let (source, target, weight) = data.edges[k];
            proof {
                lemma_fill_step(
                    edges,
                    k as int,
                    order as int,
                    ends,
                    node_offsets@,
                    edge_stubs@,
                );
            }

            node_offsets.set(source, node_offsets[source] - 1);
            node_offsets.set(target, node_offsets[target] - 1);

            let source_index = node_offsets[source];
            let target_index = node_offsets[target];

            edge_stubs.set(source_index, (target, weight));
            edge_stubs.set(target_index, (source, weight));

            k += 1;
        }

        let index = Self { node_offsets, edge_stubs };
        proof {
            assert(edges.take(size as int) =~= edges);
            assert forall|u: int| 0 <= u < order implies #[trigger] index.node_offsets@[u]
                == degree_prefix(edges, u) by {
                lemma_degree_take_le(edges, size as int, u);
            }
            lemma_degree_prefix_total(edges, order as int);
            assert forall|u: int| 0 <= u < order implies #[trigger] index.spec_stubs(u)
                == incident_stubs(edges, u) by {
                if u + 1 < order {
                    assert(index.node_offsets@[u + 1] == degree_prefix(edges, u + 1));
                } else {
                    lemma_degree_outside(edges, order as int, order as int);
                }
            }
            assert forall|i: int, j: int|
                0 <= i <= j < index.node_offsets@.len() implies index.node_offsets@[i]
                <= index.node_offsets@[j] by {
                lemma_degree_prefix_mono(edges, i, j);
                if j == order {
                    lemma_degree_prefix_mono(edges, i, order as int);
                }
            }
        }
        index
    }

    /// The adjacency list of `node`.
    pub fn stubs(&self, node: usize) -> (stubs: &[(usize, F)])
        requires
            self.wf(),
            node < self.spec_order(),
        ensures
            stubs@ == self.spec_stubs(node as int),
    {
        let len = self.node_offsets.len();
        assert(node + 1 < len);
        vstd::slice::slice_subrange(
            self.edge_stubs.as_slice(),
            self.node_offsets[node],
            self.node_offsets[node + 1],
        )
    }
}

impl<F: Float> FA2Data<F> {
    /// The invariant that every method keeps: one entry per node in each
    /// per-node vector, and edges only between existing nodes.
    pub open spec fn wf(&self) -> bool {
        let n = self.xs.len();
        &&& self.ys.len() == n
        &&& self.ms.len() == n
        &&& self.delta_xs.len() == n
        &&& self.delta_ys.len() == n
        &&& self.old_delta_xs.len() == n
        &&& self.old_delta_ys.len() == n
        &&& self.convergences.len() == n
        &&& edges_within(self.edges@, n as nat)
    }

    /// The number of nodes.
    pub open spec fn spec_order(&self) -> nat {
        self.xs.len() as nat
    }

    /// The x coordinates of the nodes.
    pub open spec fn spec_xs(&self) -> Seq<F> {
        self.xs@
    }

    /// The y coordinates of the nodes.
    pub open spec fn spec_ys(&self) -> Seq<F> {
        self.ys@
    }

    /// The masses of the nodes.
    pub open spec fn spec_ms(&self) -> Seq<F> {
        self.ms@
    }

    /// The edges, as `(source, target, weight)`.
    pub open spec fn spec_edges(&self) -> Seq<(usize, usize, F)> {
        self.edges@
    }

    /// Whether `self` holds no node and no edge.
    pub open spec fn is_empty(&self) -> bool {
        &&& self.xs@.len() == 0
        &&& self.ys@.len() == 0
        &&& self.ms@.len() == 0
        &&& self.delta_xs@.len() == 0
        &&& self.delta_ys@.len() == 0
        &&& self.old_delta_xs@.len() == 0
        &&& self.old_delta_ys@.len() == 0
        &&& self.convergences@.len() == 0
        &&& self.edges@.len() == 0
    }

    /// Create an empty [`FA2Data`] instance.
    pub fn new() -> (d: Self)
        ensures
            d.wf(),
            d.is_empty(),
    {
        Self {
            xs: Vec::new(),
            ys: Vec::new(),
            ms: Vec::new(),
            delta_xs: Vec::new(),
            delta_ys: Vec::new(),
            old_delta_xs: Vec::new(),
            old_delta_ys: Vec::new(),
            convergences: Vec::new(),
            edges: Vec::new(),
        }
    }

    /// Create an empty [`FA2Data`] instance fitting a given number of nodes
    /// before resizing inner allocations.
    pub fn with_node_capacity(nodes: usize) -> (d: Self)
        ensures
            d.wf(),
            d.is_empty(),
    {
        Self {
            xs: Vec::with_capacity(nodes),
            ys: Vec::with_capacity(nodes),
            ms: Vec::with_capacity(nodes),
            delta_xs: Vec::with_capacity(nodes),
            delta_ys: Vec::with_capacity(nodes),
            old_delta_xs: Vec::with_capacity(nodes),
            old_delta_ys: Vec::with_capacity(nodes),
            convergences: Vec::with_capacity(nodes),
            edges: Vec::new(),
        }
    }

    /// Create an empty [`FA2Data`] instance fitting a given number of nodes
    /// and edges before resizing inner allocations.
    pub fn with_capacity(nodes: usize, edges: usize) -> (d: Self)
        ensures
            d.wf(),
            d.is_empty(),
    {
        Self {
            xs: Vec::with_capacity(nodes),
            ys: Vec::with_capacity(nodes),
            ms: Vec::with_capacity(nodes),
            delta_xs: Vec::with_capacity(nodes),
            delta_ys: Vec::with_capacity(nodes),
            old_delta_xs: Vec::with_capacity(nodes),
            old_delta_ys: Vec::with_capacity(nodes),
            convergences: Vec::with_capacity(nodes),
            edges: Vec::with_capacity(edges),
        }
    }

    /// Return the order of represented graph, i.e. its number of nodes.
    pub fn order(&self) -> (n: usize)
        ensures
            n == self.xs.len(),
    {
        self.xs.len()
    }

    /// Return the size of represented graph, i.e. its number of edges.
    pub fn size(&self) -> (m: usize)
        ensures
            m == self.edges.len(),
    {
        self.edges.len()
    }

    /// Add a node with given position, returning its index.
    pub fn add_node(&mut self, x: F, y: F) -> (index: usize)
        requires
            old(self).wf(),
        ensures
            final(self).wf(),
            index == old(self).xs.len(),
            final(self).xs@ == old(self).xs@.push(x),
            final(self).ys@ == old(self).ys@.push(y),
            final(self).ms@ == old(self).ms@.push(F::spec_one()),
            final(self).delta_xs@ == old(self).delta_xs@.push(F::spec_zero()),
            final(self).delta_ys@ == old(self).delta_ys@.push(F::spec_zero()),
            final(self).old_delta_xs@ == old(self).old_delta_xs@.push(F::spec_zero()),
            final(self).old_delta_ys@ == old(self).old_delta_ys@.push(F::spec_zero()),
            final(self).convergences@ == old(self).convergences@.push(F::spec_one()),
            final(self).edges@ == old(self).edges@,
    {
        let index = self.order();

        self.xs.push(x);
        self.ys.push(y);
        self.ms.push(F::one());

        self.delta_xs.push(F::zero());
        self.delta_ys.push(F::zero());

        self.old_delta_xs.push(F::zero());
        self.old_delta_ys.push(F::zero());

        self.convergences.push(F::one());

        index
    }

    /// Set target node's position.
    pub fn set_node_position(&mut self, n: usize, x: F, y: F)
        requires
            old(self).wf(),
            n < old(self).xs.len(),
        ensures
            final(self).wf(),
            final(self).xs@ == old(self).xs@.update(n as int, x),
            final(self).ys@ == old(self).ys@.update(n as int, y),
            *final(self) == (FA2Data { xs: final(self).xs, ys: final(self).ys, ..*old(self) }),
    {
        self.xs.set(n, x);
        self.ys.set(n, y);
    }

    /// Add an edge with given weight. Both endpoints gain `weight` in mass.
    pub fn add_edge_with_weight(&mut self, i: usize, j: usize, weight: F)
        requires
            old(self).wf(),
            i < old(self).xs.len(),
            j < old(self).xs.len(),
        ensures
            final(self).wf(),
            final(self).ms@ == masses_with_edge(old(self).ms@, i, j, weight),
            final(self).edges@ == old(self).edges@.push((i, j, weight)),
            *final(self) == (FA2Data { ms: final(self).ms, edges: final(self).edges, ..*old(self) }),
    {
        let mi = self.ms[i].add(weight);
        self.ms.set(i, mi);
        let mj = self.ms[j].add(weight);
        self.ms.set(j, mj);

        self.edges.push((i, j, weight));
        proof {
            let n = self.xs.len() as nat;
            assert forall|k: int| 0 <= k < self.edges@.len() implies (
            #[trigger] self.edges@[k]).0 < n && self.edges@[k].1 < n by {
                if k < old(self).edges@.len() {
                    assert(self.edges@[k] == old(self).edges@[k]);
                }
            }
        }
    }

    /// Add an edge with a default weight of `1`.
    pub fn add_edge(&mut self, i: usize, j: usize)
        requires
            old(self).wf(),
            i < old(self).xs.len(),
            j < old(self).xs.len(),
        ensures
            final(self).wf(),
            final(self).ms@ == masses_with_edge(old(self).ms@, i, j, F::spec_one()),
            final(self).edges@ == old(self).edges@.push((i, j, F::spec_one())),
            *final(self) == (FA2Data { ms: final(self).ms, edges: final(self).edges, ..*old(self) }),
    {
        self.add_edge_with_weight(i, j, F::one());
    }

    /// The positions of the nodes, as `(x, y)` pairs in node order.
    pub fn positions(&self) -> (ps: Vec<(F, F)>)
        requires
            self.wf(),
        ensures
            ps@.len() == self.xs.len(),
            forall|k: int| 0 <= k < ps@.len() ==> #[trigger] ps@[k] == (self.xs@[k], self.ys@[k]),
    {
        let mut ps: Vec<(F, F)> = Vec::with_capacity(self.xs.len());
        let mut k: usize = 0;
        while k < self.xs.len()
            invariant
                self.wf(),
                k <= self.xs.len(),
                ps@.len() == k,
                forall|i: int| 0 <= i < k ==> #[trigger] ps@[i] == (self.xs@[i], self.ys@[i]),
            decreases self.xs.len() - k,
        {
            ps.push((self.xs[k], self.ys[k]));
            k += 1;
        }
        ps
    }

    /// The `(min_x, max_x, min_y, max_y)` extent of the node positions, or
    /// `None` when there is no node.
    pub fn positions_extent(&self) -> (extent: Option<(F, F, F, F)>)
        requires
            self.wf(),
        ensures
            extent == extent_of(self.xs@, self.ys@, self.xs.len() as nat),
            extent is None <==> self.xs.len() == 0,
    {
        let mut extent: Option<(F, F, F, F)> = None;
        let mut k: usize = 0;

        while k < self.xs.len()
            invariant
                self.wf(),
                k <= self.xs.len(),
                extent == extent_of(self.xs@, self.ys@, k as nat),
            decreases self.xs.len() - k,
        {
            let x = self.xs[k];
            let y = self.ys[k];
            match extent {
                None => {
                    extent = Some((x, x, y, y));
                },
                Some((min_x, max_x, min_y, max_y)) => {
                    let mut e = (min_x, max_x, min_y, max_y);
                    if x.lt(min_x) {
                        e.0 = x;
                    }
                    if max_x.lt(x) {
                        e.1 = x;
                    }
                    if y.lt(min_y) {
                        e.2 = y;
                    }
                    if max_y.lt(y) {
                        e.3 = y;
                    }
                    extent = Some(e);
                },
            }
            k += 1;
        }
        proof {
            lemma_extent_attained(self.xs@, self.ys@, self.xs.len() as nat);
        }
        extent
    }

    /// Start a new iteration: the current deltas become the old ones, and
    /// the current ones are set to zero.
    pub fn reset(&mut self)
        requires
            old(self).wf(),
        ensures
            final(self).wf(),
            final(self).old_delta_xs == old(self).delta_xs,
            final(self).old_delta_ys == old(self).delta_ys,
            final(self).delta_xs@ == Seq::new(old(self).xs.len() as nat, |i: int| F::spec_zero()),
            final(self).delta_ys@ == Seq::new(old(self).xs.len() as nat, |i: int| F::spec_zero()),
            *final(self) == (FA2Data {
                delta_xs: final(self).delta_xs,
                delta_ys: final(self).delta_ys,
                old_delta_xs: final(self).old_delta_xs,
                old_delta_ys: final(self).old_delta_ys,
                ..*old(self)
            }),
    {
        std::mem::swap(&mut self.delta_xs, &mut self.old_delta_xs);
        std::mem::swap(&mut self.delta_ys, &mut self.old_delta_ys);

        let n = self.delta_xs.len();
        let ghost swapped = *self;
        let mut i: usize = 0;
        while i < n
            invariant
                *self == (FA2Data { delta_xs: self.delta_xs, delta_ys: self.delta_ys, ..swapped }),
                swapped.old_delta_xs == old(self).delta_xs,
                swapped.old_delta_ys == old(self).delta_ys,
                swapped.wf(),
                n == self.delta_xs.len(),
                n == self.delta_ys.len(),
                i <= n,
                forall|k: int| 0 <= k < i ==> self.delta_xs@[k] == F::spec_zero(),
                forall|k: int| 0 <= k < i ==> self.delta_ys@[k] == F::spec_zero(),
            decreases n - i,
        {
            self.delta_xs.set(i, F::zero());
            self.delta_ys.set(i, F::zero());
            i += 1;
        }
        assert(self.delta_xs@ =~= Seq::new(n as nat, |i: int| F::spec_zero()));
        assert(self.delta_ys@ =~= Seq::new(n as nat, |i: int| F::spec_zero()));
    }

    /// Place the nodes evenly on the unit circle, in node order.
    pub fn apply_circular_layout(&mut self)
        requires
            old(self).wf(),
        ensures
            final(self).wf(),
            final(self).xs@ == Seq::new(
                old(self).xs.len() as nat,
                |k: int| circle_angle::<F>(k as nat, old(self).xs.len()).spec_cos(),
            ),
            final(self).ys@ == Seq::new(
                old(self).xs.len() as nat,
                |k: int| circle_angle::<F>(k as nat, old(self).xs.len()).spec_sin(),
            ),
            *final(self) == (FA2Data { xs: final(self).xs, ys: final(self).ys, ..*old(self) }),
    {
        let tau = F::tau();
        let n = self.order();
        let order = F::from_usize(n);

        let mut i = F::zero();
        let mut k: usize = 0;
        let ghost start = *self;

        while k < n
            invariant
                *self == (FA2Data { xs: self.xs, ys: self.ys, ..start }),
                start == *old(self),
                start.wf(),
                n == self.xs.len(),
                n == self.ys.len(),
                k <= n,
                tau == F::spec_tau(),
                order == F::spec_from_usize(n),
                i == counter::<F>(k as nat),
                forall|j: int|
                    0 <= j < k ==> self.xs@[j] == circle_angle::<F>(j as nat, n).spec_cos(),
                forall|j: int|
                    0 <= j < k ==> self.ys@[j] == circle_angle::<F>(j as nat, n).spec_sin(),
            decreases n - k,
        {
            let p = i.mul(tau).div(order);

            self.xs.set(k, p.cos());
            self.ys.set(k, p.sin());

            i = i.add(F::one());
            k += 1;
        }
        assert(self.xs@ =~= Seq::new(
            n as nat,
            |j: int| circle_angle::<F>(j as nat, n).spec_cos(),
        ));
        assert(self.ys@ =~= Seq::new(
            n as nat,
            |j: int| circle_angle::<F>(j as nat, n).spec_sin(),
        ));
    }
}

impl<F: Float> Default for FA2Data<F> {
    fn default() -> (d: Self)
        ensures
            d.wf(),
            d.is_empty(),
    {
        Self::new()
    }
}

} // verus!
