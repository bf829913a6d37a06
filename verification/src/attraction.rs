use vstd::prelude::*;

use crate::data::{edges_within, NeighborhoodIndex};
use crate::settings::FA2Settings;
use crate::traits::Float;

verus! {

/// The attraction coefficient of an edge of weight `w`: `-(w ^ influence)`.
pub open spec fn attraction_factor<F: Float>(settings: FA2Settings<F>, w: F) -> F {
    w.spec_powf(settings.edge_weight_influence).spec_neg()
}

/// The displacement `(dx, dy)` that an edge from `source` to `target` of
/// weight `w` adds to its source (and takes from its target).
pub open spec fn attraction_displacement<F: Float>(
    settings: FA2Settings<F>,
    xs: Seq<F>,
    ys: Seq<F>,
    source: usize,
    target: usize,
    w: F,
) -> (F, F) {
    let factor = attraction_factor(settings, w);
    (
        xs[source as int].spec_sub(xs[target as int]).spec_mul(factor),
        ys[source as int].spec_sub(ys[target as int]).spec_mul(factor),
    )
}

/// The output after applying the attraction of one edge.
pub open spec fn attraction_step<F: Float>(
    settings: FA2Settings<F>,
    xs: Seq<F>,
    ys: Seq<F>,
    out: (Seq<F>, Seq<F>),
    edge: (usize, usize, F),
) -> (Seq<F>, Seq<F>) {
    let (source, target, w) = edge;
    let (dx, dy) = attraction_displacement(settings, xs, ys, source, target, w);
    let out_x = out.0.update(source as int, out.0[source as int].spec_add(dx));
    let out_y = out.1.update(source as int, out.1[source as int].spec_add(dy));
    (
        out_x.update(target as int, out_x[target as int].spec_sub(dx)),
        out_y.update(target as int, out_y[target as int].spec_sub(dy)),
    )
}

/// The output after applying the attraction of the edges, in order.
pub open spec fn attraction_fold<F: Float>(
    settings: FA2Settings<F>,
    xs: Seq<F>,
    ys: Seq<F>,
    edges: Seq<(usize, usize, F)>,
    out: (Seq<F>, Seq<F>),
) -> (Seq<F>, Seq<F>)
    decreases edges.len(),
{
    if edges.len() == 0 {
        out
    } else {
        attraction_step(
            settings,
            xs,
            ys,
            attraction_fold(settings, xs, ys, edges.drop_last(), out),
            edges.last(),
        )
    }
}

/// An edge pulls its endpoints toward each other along the line between
/// them, in proportion to `w ^ influence`: the source gains `(pos(source) -
/// pos(target)) * -(w ^ influence)` and the target loses the same.
pub proof fn lemma_attraction_of_one_edge<F: Float>(
    settings: FA2Settings<F>,
    xs: Seq<F>,
    ys: Seq<F>,
    source: usize,
    target: usize,
    w: F,
    out: (Seq<F>, Seq<F>),
)
    requires
        source != target,
        source < out.0.len(),
        target < out.0.len(),
        source < out.1.len(),
        target < out.1.len(),
    ensures
        ({
            let after = attraction_fold(settings, xs, ys, seq![(source, target, w)], out);
            let pull = w.spec_powf(settings.edge_weight_influence).spec_neg();
            let dx = xs[source as int].spec_sub(xs[target as int]).spec_mul(pull);
            let dy = ys[source as int].spec_sub(ys[target as int]).spec_mul(pull);
            &&& after.0.len() == out.0.len()
            &&& after.1.len() == out.1.len()
            &&& after.0[source as int] == out.0[source as int].spec_add(dx)
            &&& after.1[source as int] == out.1[source as int].spec_add(dy)
            &&& after.0[target as int] == out.0[target as int].spec_sub(dx)
            &&& after.1[target as int] == out.1[target as int].spec_sub(dy)
            &&& forall|i: int|
                0 <= i < out.0.len() && i != source && i != target ==> #[trigger] after.0[i] == out.0[i]
            &&& forall|i: int|
                0 <= i < out.1.len() && i != source && i != target ==> #[trigger] after.1[i] == out.1[i]
        }),
{
    let edges = seq![(source, target, w)];
    assert(edges.drop_last() =~= Seq::<(usize, usize, F)>::empty());
    assert(edges.last() == (source, target, w));
    assert(attraction_fold(settings, xs, ys, edges.drop_last(), out) == out);
}

/// Weights act only through `w ^ influence`: two edge lists with the same
/// endpoints, in the same order, whose weights raised to the influence
/// agree, attract alike.
pub proof fn lemma_attraction_through_powers<F: Float>(
    s1: FA2Settings<F>,
    s2: FA2Settings<F>,
    xs: Seq<F>,
    ys: Seq<F>,
    e1: Seq<(usize, usize, F)>,
    e2: Seq<(usize, usize, F)>,
    out: (Seq<F>, Seq<F>),
)
    requires
        e1.len() == e2.len(),
        forall|k: int|
            0 <= k < e1.len() ==> (#[trigger] e1[k]).0 == e2[k].0 && e1[k].1 == e2[k].1 && e1[k].2.spec_powf(
                s1.edge_weight_influence,
            ) == e2[k].2.spec_powf(s2.edge_weight_influence),
    ensures
        attraction_fold(s1, xs, ys, e1, out) == attraction_fold(s2, xs, ys, e2, out),
    decreases e1.len(),
{
    if e1.len() > 0 {
        let k = e1.len() - 1;
        assert(e1[k] == e1.last() && e2[k] == e2.last());
        lemma_attraction_through_powers(s1, s2, xs, ys, e1.drop_last(), e2.drop_last(), out);
    }
}

/// Weights act only through `w ^ influence` on a single node too: two
/// adjacency lists with the same neighbors, in the same order, whose
/// weights raised to the influence agree, attract the node alike.
pub proof fn lemma_nodewise_attraction_through_powers<F: Float>(
    s1: FA2Settings<F>,
    s2: FA2Settings<F>,
    xs: Seq<F>,
    ys: Seq<F>,
    n: int,
    st1: Seq<(usize, F)>,
    st2: Seq<(usize, F)>,
    out: (F, F),
)
    requires
        st1.len() == st2.len(),
        forall|k: int|
            0 <= k < st1.len() ==> (#[trigger] st1[k]).0 == st2[k].0 && st1[k].1.spec_powf(
                s1.edge_weight_influence,
            ) == st2[k].1.spec_powf(s2.edge_weight_influence),
    ensures
        nodewise_attraction(s1, xs, ys, n, st1, out) == nodewise_attraction(s2, xs, ys, n, st2, out),
    decreases st1.len(),
{
    if st1.len() > 0 {
        let k = st1.len() - 1;
        assert(st1[k] == st1.last() && st2[k] == st2.last());
        lemma_nodewise_attraction_through_powers(s1, s2, xs, ys, n, st1.drop_last(), st2.drop_last(), out);
    }
}

/// A node is pulled by a neighbor along the line between them, in
/// proportion to `w ^ influence`: it gains `(pos(n) - pos(neighbor)) *
/// -(w ^ influence)`.
pub proof fn lemma_nodewise_attraction_of_one_neighbor<F: Float>(
    settings: FA2Settings<F>,
    xs: Seq<F>,
    ys: Seq<F>,
    n: int,
    neighbor: usize,
    w: F,
    out: (F, F),
)
    ensures
        ({
            let pull = w.spec_powf(settings.edge_weight_influence).spec_neg();
            nodewise_attraction(settings, xs, ys, n, seq![(neighbor, w)], out) == (
                out.0.spec_add(xs[n].spec_sub(xs[neighbor as int]).spec_mul(pull)),
                out.1.spec_add(ys[n].spec_sub(ys[neighbor as int]).spec_mul(pull)),
            )
        }),
{
    let stubs = seq![(neighbor, w)];
    assert(stubs.drop_last() =~= Seq::<(usize, F)>::empty());
    assert(stubs.last() == (neighbor, w));
    assert(nodewise_attraction(settings, xs, ys, n, stubs.drop_last(), out) == out);
}

/// Apply the attraction of every edge to the output deltas: along each edge
/// `(source, target, w)`, the source gains `(pos(source) - pos(target)) *
/// -(w ^ influence)` and the target loses the same amount.
pub fn apply_attraction<F: Float>(
    settings: &FA2Settings<F>,
    xs: &[F],
    ys: &[F],
    edges: &[(usize, usize, F)],
    out_xs: &mut [F],
    out_ys: &mut [F],
)
    requires
        edges_within(edges@, xs@.len() as nat),
        edges_within(edges@, ys@.len() as nat),
        edges_within(edges@, old(out_xs)@.len() as nat),
        edges_within(edges@, old(out_ys)@.len() as nat),
    ensures
        final(out_xs)@.len() == old(out_xs)@.len(),
        final(out_ys)@.len() == old(out_ys)@.len(),
        (final(out_xs)@, final(out_ys)@) == attraction_fold(
            *settings,
            xs@,
            ys@,
            edges@,
            (old(out_xs)@, old(out_ys)@),
        ),
{
    let ghost out0 = (out_xs@, out_ys@);
    let mut k: usize = 0;
    while k < edges.len()
        invariant
            k <= edges@.len(),
            edges_within(edges@, xs@.len() as nat),
            edges_within(edges@, ys@.len() as nat),
            out_xs@.len() == out0.0.len(),
            out_ys@.len() == out0.1.len(),
            edges_within(edges@, out0.0.len() as nat),
            edges_within(edges@, out0.1.len() as nat),
            (out_xs@, out_ys@) == attraction_fold(*settings, xs@, ys@, edges@.take(k as int), out0),
        decreases edges@.len() - k,
    {
        let (source, target, weight) = edges[k];
        assert(edges@.take(k + 1).drop_last() =~= edges@.take(k as int));
        assert(edges@.take(k + 1).last() == edges@[k as int]);

        let factor = weight.powf(settings.edge_weight_influence).neg();

        let x_dist = xs[source].sub(xs[target]);
        let y_dist = ys[source].sub(ys[target]);

        let x_displacement = x_dist.mul(factor);
        let y_displacement = y_dist.mul(factor);

        out_xs[source] = out_xs[source].add(x_displacement);
        out_ys[source] = out_ys[source].add(y_displacement);

        out_xs[target] = out_xs[target].sub(x_displacement);
        out_ys[target] = out_ys[target].sub(y_displacement);

        k += 1;
    }
    assert(edges@.take(edges@.len() as int) =~= edges@);
}

/// The output of node `n` after the attraction along its adjacency list
/// `stubs`, in order: each stub `(neighbor, w)` adds `(pos(n) -
/// pos(neighbor)) * -(w ^ influence)`.
pub open spec fn nodewise_attraction<F: Float>(
    settings: FA2Settings<F>,
    xs: Seq<F>,
    ys: Seq<F>,
    n: int,
    stubs: Seq<(usize, F)>,
    out: (F, F),
) -> (F, F)
    decreases stubs.len(),
{
    if stubs.len() == 0 {
        out
    } else {
        let prev = nodewise_attraction(settings, xs, ys, n, stubs.drop_last(), out);
        let (neighbor, w) = stubs.last();
        let factor = attraction_factor(settings, w);
        (
            prev.0.spec_add(xs[n].spec_sub(xs[neighbor as int]).spec_mul(factor)),
            prev.1.spec_add(ys[n].spec_sub(ys[neighbor as int]).spec_mul(factor)),
        )
    }
}

/// Apply to node `n` the attraction of its edges, read from the adjacency
/// lists of `neighborhood_index`.
pub fn apply_nodewise_attraction<F: Float>(
    settings: &FA2Settings<F>,
    neighborhood_index: &NeighborhoodIndex<F>,
    n: usize,
    xs: &[F],
    ys: &[F],
    out_x: &mut F,
    out_y: &mut F,
)
    requires
        neighborhood_index.wf(),
        n < neighborhood_index.spec_order(),
        n < xs@.len(),
        n < ys@.len(),
        forall|i: int|
            0 <= i < neighborhood_index.spec_stubs(n as int).len() ==> (#[trigger] neighborhood_index.spec_stubs(
                n as int,
            )[i]).0 < xs@.len() && neighborhood_index.spec_stubs(n as int)[i].0 < ys@.len(),
    ensures
        (*final(out_x), *final(out_y)) == nodewise_attraction(
            *settings,
            xs@,
            ys@,
            n as int,
            neighborhood_index.spec_stubs(n as int),
            (*old(out_x), *old(out_y)),
        ),
{
    let stubs = neighborhood_index.stubs(n);
    let ghost out0 = (*out_x, *out_y);
    let mut k: usize = 0;
    while k < stubs.len()
        invariant
            k <= stubs@.len(),
            stubs@ == neighborhood_index.spec_stubs(n as int),
            n < xs@.len(),
            n < ys@.len(),
            forall|i: int|
                0 <= i < stubs@.len() ==> (#[trigger] stubs@[i]).0 < xs@.len() && stubs@[i].0
                    < ys@.len(),
            (*out_x, *out_y) == nodewise_attraction(
                *settings,
                xs@,
                ys@,
                n as int,
                stubs@.take(k as int),
                out0,
            ),
        decreases stubs@.len() - k,
    {
        let (neighbor, weight) = stubs[k];
        assert(stubs@.take(k + 1).drop_last() =~= stubs@.take(k as int));
        assert(stubs@.take(k + 1).last() == stubs@[k as int]);
        let factor = weight.powf(settings.edge_weight_influence).neg();

        *out_x = (*out_x).add(xs[n].sub(xs[neighbor]).mul(factor));
        *out_y = (*out_y).add(ys[n].sub(ys[neighbor]).mul(factor));
        k += 1;
    }
    assert(stubs@.take(stubs@.len() as int) =~= stubs@);
}

} // verus!
