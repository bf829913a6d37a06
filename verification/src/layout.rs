use vstd::prelude::*;

use crate::attraction::{
    apply_attraction, apply_nodewise_attraction, attraction_fold, attraction_step, nodewise_attraction,
};
use crate::barnes_hut::{tree_of, BarnesHutTree};
use crate::data::{extent_of, incident_stubs, lemma_incident_within, FA2Data, NeighborhoodIndex};
use crate::forces::{apply_forces, node_move_at, total_movement};
use crate::gravity::{apply_gravity, apply_nodewise_gravity, gravity_pull};
use crate::repulsion::{apply_nodewise_repulsion, apply_pairwise_repulsion, nodewise_repulsion, repulsion_rows};
use crate::settings::{FA2Settings, RepulsionMode};
use crate::traits::Float;

verus! {

/// What the layout keeps to compute repulsion.
pub enum RepulsionIndex<F: Float> {
    /// Nothing: repulsion is pairwise.
    Pairwise,
    /// A Barnes-Hut tree, rebuilt at each epoch.
    BarnesHut(BarnesHutTree<F>),
}

impl<F: Float> RepulsionIndex<F> {
    fn new(mode: &RepulsionMode<F>, order: usize) -> (index: Self)
        ensures
            index is Pairwise <==> mode is Pairwise,
            index matches RepulsionIndex::BarnesHut(tree) ==> tree.wf(),
    {
        match mode {
            RepulsionMode::Pairwise => RepulsionIndex::Pairwise,
            RepulsionMode::BarnesHut { .. } => RepulsionIndex::BarnesHut(
                BarnesHutTree::with_capacity(order),
            ),
        }
    }
}

/// `(0, 0)`.
pub open spec fn zero_pair<F: Float>() -> (F, F) {
    (F::spec_zero(), F::spec_zero())
}

/// The repulsion that node `n` gets, from zero, in an epoch.
pub open spec fn node_repulsion_in<F: Float>(
    settings: FA2Settings<F>,
    index: RepulsionIndex<F>,
    xs: Seq<F>,
    ys: Seq<F>,
    ms: Seq<F>,
    n: int,
) -> (F, F) {
    match index {
        RepulsionIndex::Pairwise => nodewise_repulsion(
            settings,
            xs[n],
            ys[n],
            ms[n],
            xs,
            ys,
            ms,
            xs.len(),
            zero_pair(),
        ),
        RepulsionIndex::BarnesHut(tree) => tree.node_repulsion(settings, n, xs, ys, ms, zero_pair()),
    }
}

/// The delta of node `n` when nodes are handled one by one: repulsion, then
/// gravity, then the attraction of its adjacency list.
pub open spec fn node_delta<F: Float>(
    settings: FA2Settings<F>,
    index: RepulsionIndex<F>,
    xs: Seq<F>,
    ys: Seq<F>,
    ms: Seq<F>,
    edges: Seq<(usize, usize, F)>,
    n: int,
) -> (F, F) {
    let r = node_repulsion_in(settings, index, xs, ys, ms, n);
    let g = gravity_pull(settings, xs[n], ys[n], ms[n], r.0, r.1);
    nodewise_attraction(settings, xs, ys, n, incident_stubs(edges, n), g)
}

/// The deltas when forces are applied to all nodes at once: repulsion
/// (pair by pair, or node by node through the tree), then gravity, then
/// attraction edge by edge.
pub open spec fn sequential_deltas<F: Float>(
    settings: FA2Settings<F>,
    index: RepulsionIndex<F>,
    xs: Seq<F>,
    ys: Seq<F>,
    ms: Seq<F>,
    edges: Seq<(usize, usize, F)>,
) -> (Seq<F>, Seq<F>) {
    let n = xs.len();
    let zeros = Seq::new(n, |i: int| F::spec_zero());
    let rep = match index {
        RepulsionIndex::Pairwise => repulsion_rows(settings, xs, ys, ms, (zeros, zeros), n as int),
        RepulsionIndex::BarnesHut(tree) => (
            Seq::new(n, |i: int| tree.node_repulsion(settings, i, xs, ys, ms, zero_pair()).0),
            Seq::new(n, |i: int| tree.node_repulsion(settings, i, xs, ys, ms, zero_pair()).1),
        ),
    };
    let grav = (
        Seq::new(n, |i: int| gravity_pull(settings, xs[i], ys[i], ms[i], rep.0[i], rep.1[i]).0),
        Seq::new(n, |i: int| gravity_pull(settings, xs[i], ys[i], ms[i], rep.0[i], rep.1[i]).1),
    );
    attraction_fold(settings, xs, ys, edges, grav)
}

/// The deltas that an epoch computes.
pub open spec fn epoch_deltas<F: Float>(
    settings: FA2Settings<F>,
    index: RepulsionIndex<F>,
    xs: Seq<F>,
    ys: Seq<F>,
    ms: Seq<F>,
    edges: Seq<(usize, usize, F)>,
) -> (Seq<F>, Seq<F>) {
    if settings.parallel {
        (
            Seq::new(xs.len(), |i: int| node_delta(settings, index, xs, ys, ms, edges, i).0),
            Seq::new(xs.len(), |i: int| node_delta(settings, index, xs, ys, ms, edges, i).1),
        )
    } else {
        sequential_deltas(settings, index, xs, ys, ms, edges)
    }
}

/// `after` is `before` once its deltas were set to `(delta_xs, delta_ys)`
/// and every node moved by them (see [`crate::forces::node_move`]).
pub open spec fn moved<F: Float>(
    settings: FA2Settings<F>,
    before: FA2Data<F>,
    delta_xs: Seq<F>,
    delta_ys: Seq<F>,
    after: FA2Data<F>,
) -> bool {
    let n = before.xs@.len();
    &&& after.wf()
    &&& after.xs@.len() == n
    &&& after.delta_xs@ == delta_xs
    &&& after.delta_ys@ == delta_ys
    &&& after.ms == before.ms
    &&& after.old_delta_xs == before.old_delta_xs
    &&& after.old_delta_ys == before.old_delta_ys
    &&& after.edges == before.edges
    &&& forall|i: int|
        0 <= i < n ==> {
            let mv = node_move_at(
                settings,
                before.xs@,
                before.ys@,
                before.ms@,
                delta_xs,
                delta_ys,
                before.old_delta_xs@,
                before.old_delta_ys@,
                before.convergences@,
                i,
            );
            &&& #[trigger] after.xs@[i] == mv.x
            &&& after.ys@[i] == mv.y
            &&& after.convergences@[i] == mv.convergence
        }
}

/// The total movement when the nodes of `before` move by the given deltas.
pub open spec fn movement_of<F: Float>(
    settings: FA2Settings<F>,
    before: FA2Data<F>,
    delta_xs: Seq<F>,
    delta_ys: Seq<F>,
) -> F {
    total_movement(
        settings,
        before.xs@,
        before.ys@,
        before.ms@,
        delta_xs,
        delta_ys,
        before.old_delta_xs@,
        before.old_delta_ys@,
        before.convergences@,
        before.xs@.len(),
    )
}

/// The struct responsible for actually running the iterations of the FA2
/// algorithm.
///
/// It must be built from a [`FA2Settings`], using some [`FA2Data`].
pub struct FA2Layout<F: Float> {
    settings: FA2Settings<F>,
    data: FA2Data<F>,
    neighborhood_index: Option<NeighborhoodIndex<F>>,
    repulsion_index: RepulsionIndex<F>,
}

/// `post` is `pre` after one epoch, in which the nodes moved by `movement`
/// in total: the deltas were computed over the positions of `pre` (with a
/// Barnes-Hut tree rebuilt over them, when the settings ask for one), the
/// previous deltas were kept as the old ones, and every node moved by its
/// delta. The settings and the graph stay the same.
pub open spec fn epoch_step<F: Float>(pre: FA2Layout<F>, post: FA2Layout<F>, movement: F) -> bool {
    let s = pre.spec_settings();
    let d = pre.spec_data();
    let prepared = FA2Data {
        delta_xs: d.old_delta_xs,
        delta_ys: d.old_delta_ys,
        old_delta_xs: d.delta_xs,
        old_delta_ys: d.delta_ys,
        ..d
    };
    let index = post.spec_repulsion_index();
    let deltas = epoch_deltas(s, index, d.xs@, d.ys@, d.ms@, d.edges@);
    &&& post.spec_settings() == s
    &&& (index is Pairwise <==> s.repulsion_mode is Pairwise)
    &&& (index matches RepulsionIndex::BarnesHut(tree) ==> tree@ == tree_of(d.xs@, d.ys@, d.ms@))
    &&& moved(s, prepared, deltas.0, deltas.1, post.spec_data())
    &&& movement == movement_of(s, prepared, deltas.0, deltas.1)
}

/// `post` is `pre` after one epoch.
pub open spec fn epoch_between<F: Float>(pre: FA2Layout<F>, post: FA2Layout<F>) -> bool {
    exists|movement: F| #[trigger] epoch_step(pre, post, movement)
}

/// The graph, positions, masses, deltas and convergences of `d` and `e`
/// are the same.
pub open spec fn same_nodes<F: Float>(d: FA2Data<F>, e: FA2Data<F>) -> bool {
    &&& d.xs@ == e.xs@
    &&& d.ys@ == e.ys@
    &&& d.ms@ == e.ms@
    &&& d.delta_xs@ == e.delta_xs@
    &&& d.delta_ys@ == e.delta_ys@
    &&& d.old_delta_xs@ == e.old_delta_xs@
    &&& d.old_delta_ys@ == e.old_delta_ys@
    &&& d.convergences@ == e.convergences@
    &&& d.edges@ == e.edges@
}

/// `a` and `b` run with the same settings over the same graph, in the same
/// state.
pub open spec fn same_state<F: Float>(a: FA2Layout<F>, b: FA2Layout<F>) -> bool {
    &&& a.spec_settings() == b.spec_settings()
    &&& same_nodes(a.spec_data(), b.spec_data())
}

/// An epoch is a function of the layout's state: from layouts in the same
/// state, an epoch leads to layouts in the same state, with the same total
/// movement.
pub proof fn lemma_epoch_deterministic<F: Float>(
    a: FA2Layout<F>,
    b: FA2Layout<F>,
    a2: FA2Layout<F>,
    b2: FA2Layout<F>,
    movement_a: F,
    movement_b: F,
)
    requires
        same_state(a, b),
        epoch_step(a, a2, movement_a),
        epoch_step(b, b2, movement_b),
    ensures
        same_state(a2, b2),
        movement_a == movement_b,
{
    let s = a.spec_settings();
    let d = a.spec_data();
    let e = b.spec_data();
    let ia = a2.spec_repulsion_index();
    let ib = b2.spec_repulsion_index();
    let xs = d.xs@;
    let ys = d.ys@;
    let ms = d.ms@;
    let edges = d.edges@;
    assert(epoch_deltas(s, ia, xs, ys, ms, edges) == epoch_deltas(s, ib, xs, ys, ms, edges)) by {
        match (ia, ib) {
            (RepulsionIndex::BarnesHut(ta), RepulsionIndex::BarnesHut(tb)) => {
                assert(ta@ == tb@);
                let n = xs.len();
                if s.parallel {
                    assert(epoch_deltas(s, ia, xs, ys, ms, edges).0 =~= epoch_deltas(s, ib, xs, ys, ms, edges).0);
                    assert(epoch_deltas(s, ia, xs, ys, ms, edges).1 =~= epoch_deltas(s, ib, xs, ys, ms, edges).1);
                } else {
                    let ra0 = Seq::new(n, |i: int| ta.node_repulsion(s, i, xs, ys, ms, zero_pair()).0);
                    let rb0 = Seq::new(n, |i: int| tb.node_repulsion(s, i, xs, ys, ms, zero_pair()).0);
                    let ra1 = Seq::new(n, |i: int| ta.node_repulsion(s, i, xs, ys, ms, zero_pair()).1);
                    let rb1 = Seq::new(n, |i: int| tb.node_repulsion(s, i, xs, ys, ms, zero_pair()).1);
                    assert(ra0 =~= rb0);
                    assert(ra1 =~= rb1);
                }
            },
            _ => {},
        }
    }
    let deltas = epoch_deltas(s, ia, xs, ys, ms, edges);
    let (pa, pb) = (a2.spec_data(), b2.spec_data());
    assert forall|i: int| 0 <= i < xs.len() implies pa.ys@[i] == pb.ys@[i] && pa.convergences@[i]
        == pb.convergences@[i] by {
        let mv = node_move_at(
            s,
            xs,
            ys,
            ms,
            deltas.0,
            deltas.1,
            d.delta_xs@,
            d.delta_ys@,
            d.convergences@,
            i,
        );
        assert(pa.xs@[i] == mv.x && pa.ys@[i] == mv.y && pa.convergences@[i] == mv.convergence);
        assert(pb.xs@[i] == mv.x && pb.ys@[i] == mv.y && pb.convergences@[i] == mv.convergence);
    }
    assert(pa.xs@ =~= pb.xs@);
    assert(pa.ys@ =~= pb.ys@);
    assert(pa.convergences@ =~= pb.convergences@);
}

/// Running epochs is a function of the layout's state: two runs of `k`
/// epochs from layouts in the same state end in the same state.
pub proof fn lemma_epochs_deterministic<F: Float>(
    runs_a: Seq<FA2Layout<F>>,
    runs_b: Seq<FA2Layout<F>>,
    k: nat,
)
    requires
        runs_a.len() == k + 1,
        runs_b.len() == k + 1,
        same_state(runs_a[0], runs_b[0]),
        forall|i: int| #![trigger runs_a[i]] 0 <= i < k ==> epoch_between(runs_a[i], runs_a[i + 1]),
        forall|i: int| #![trigger runs_b[i]] 0 <= i < k ==> epoch_between(runs_b[i], runs_b[i + 1]),
    ensures
        same_state(runs_a[k as int], runs_b[k as int]),
    decreases k,
{
    if k > 0 {
        let j = k - 1;
        lemma_epochs_deterministic(runs_a.take(k as int), runs_b.take(k as int), j as nat);
        assert(runs_a.take(k as int)[j] == runs_a[j]);
        assert(runs_b.take(k as int)[j] == runs_b[j]);
        assert(epoch_between(runs_a[j], runs_a[j + 1]));
        assert(epoch_between(runs_b[j], runs_b[j + 1]));
        let ma = choose|m: F| #[trigger] epoch_step(runs_a[j], runs_a[j + 1], m);
        let mb = choose|m: F| #[trigger] epoch_step(runs_b[j], runs_b[j + 1], m);
        lemma_epoch_deterministic(runs_a[j], runs_b[j], runs_a[j + 1], runs_b[j + 1], ma, mb);
    }
}

/// Two repulsion indexes of the same kind, whose trees (if any) hold the
/// same regions, give the same deltas.
proof fn lemma_same_index_deltas<F: Float>(
    s: FA2Settings<F>,
    ia: RepulsionIndex<F>,
    ib: RepulsionIndex<F>,
    xs: Seq<F>,
    ys: Seq<F>,
    ms: Seq<F>,
    edges: Seq<(usize, usize, F)>,
)
    requires
        (ia is Pairwise && ib is Pairwise) || (ia matches RepulsionIndex::BarnesHut(ta)
            && ib matches RepulsionIndex::BarnesHut(tb) && ta@ == tb@),
    ensures
        epoch_deltas(s, ia, xs, ys, ms, edges) == epoch_deltas(s, ib, xs, ys, ms, edges),
{
    match (ia, ib) {
        (RepulsionIndex::BarnesHut(ta), RepulsionIndex::BarnesHut(tb)) => {
            let n = xs.len();
            if s.parallel {
                assert(epoch_deltas(s, ia, xs, ys, ms, edges).0 =~= epoch_deltas(s, ib, xs, ys, ms, edges).0);
                assert(epoch_deltas(s, ia, xs, ys, ms, edges).1 =~= epoch_deltas(s, ib, xs, ys, ms, edges).1);
            } else {
                let ra0 = Seq::new(n, |i: int| ta.node_repulsion(s, i, xs, ys, ms, zero_pair()).0);
                let rb0 = Seq::new(n, |i: int| tb.node_repulsion(s, i, xs, ys, ms, zero_pair()).0);
                let ra1 = Seq::new(n, |i: int| ta.node_repulsion(s, i, xs, ys, ms, zero_pair()).1);
                let rb1 = Seq::new(n, |i: int| tb.node_repulsion(s, i, xs, ys, ms, zero_pair()).1);
                assert(ra0 =~= rb0);
                assert(ra1 =~= rb1);
            }
        },
        _ => {},
    }
}

/// In a sequential epoch, each edge adds its attraction to the deltas of
/// its endpoints, on top of repulsion and gravity: two sequential epochs
/// over the same nodes, the second graph having one more edge `(a, b, w)`
/// at the end, give the same deltas except at `a` and `b`, where the second
/// epoch's delta gains `(pos(a) - pos(b)) * -(w ^ influence)` at `a` and
/// loses it at `b`.
pub proof fn lemma_sequential_epoch_adds_edge_attraction<F: Float>(
    pre1: FA2Layout<F>,
    post1: FA2Layout<F>,
    movement1: F,
    pre2: FA2Layout<F>,
    post2: FA2Layout<F>,
    movement2: F,
    a: usize,
    b: usize,
    w: F,
)
    requires
        epoch_step(pre1, post1, movement1),
        epoch_step(pre2, post2, movement2),
        pre1.spec_settings() == pre2.spec_settings(),
        !pre1.spec_settings().parallel,
        pre1.spec_data().xs@ == pre2.spec_data().xs@,
        pre1.spec_data().ys@ == pre2.spec_data().ys@,
        pre1.spec_data().ms@ == pre2.spec_data().ms@,
        pre2.spec_data().edges@ == pre1.spec_data().edges@.push((a, b, w)),
        a != b,
        a < pre1.spec_data().xs@.len(),
        b < pre1.spec_data().xs@.len(),
    ensures
        ({
            let xs = pre1.spec_data().xs@;
            let ys = pre1.spec_data().ys@;
            let pull = w.spec_powf(pre1.spec_settings().edge_weight_influence).spec_neg();
            let dx = xs[a as int].spec_sub(xs[b as int]).spec_mul(pull);
            let dy = ys[a as int].spec_sub(ys[b as int]).spec_mul(pull);
            let p1 = post1.spec_data();
            let p2 = post2.spec_data();
            &&& p2.delta_xs@.len() == p1.delta_xs@.len()
            &&& p2.delta_ys@.len() == p1.delta_ys@.len()
            &&& p2.delta_xs@[a as int] == p1.delta_xs@[a as int].spec_add(dx)
            &&& p2.delta_ys@[a as int] == p1.delta_ys@[a as int].spec_add(dy)
            &&& p2.delta_xs@[b as int] == p1.delta_xs@[b as int].spec_sub(dx)
            &&& p2.delta_ys@[b as int] == p1.delta_ys@[b as int].spec_sub(dy)
            &&& forall|i: int|
                0 <= i < xs.len() && i != a && i != b ==> #[trigger] p2.delta_xs@[i] == p1.delta_xs@[i]
                    && p2.delta_ys@[i] == p1.delta_ys@[i]
        }),
{
    let s = pre1.spec_settings();
    let d = pre1.spec_data();
    let xs = d.xs@;
    let ys = d.ys@;
    let ms = d.ms@;
    let edges = d.edges@;
    let e = (a, b, w);
    let ia = post1.spec_repulsion_index();
    let ib = post2.spec_repulsion_index();
    lemma_same_index_deltas(s, ia, ib, xs, ys, ms, edges.push(e));
    lemma_same_index_deltas(s, ia, ib, xs, ys, ms, edges);
    let n = xs.len();
    let zeros = Seq::new(n, |i: int| F::spec_zero());
    let rep = match ib {
        RepulsionIndex::Pairwise => repulsion_rows(s, xs, ys, ms, (zeros, zeros), n as int),
        RepulsionIndex::BarnesHut(tree) => (
            Seq::new(n, |i: int| tree.node_repulsion(s, i, xs, ys, ms, zero_pair()).0),
            Seq::new(n, |i: int| tree.node_repulsion(s, i, xs, ys, ms, zero_pair()).1),
        ),
    };
    let grav = (
        Seq::new(n, |i: int| gravity_pull(s, xs[i], ys[i], ms[i], rep.0[i], rep.1[i]).0),
        Seq::new(n, |i: int| gravity_pull(s, xs[i], ys[i], ms[i], rep.0[i], rep.1[i]).1),
    );
    assert(edges.push(e).drop_last() =~= edges);
    assert(edges.push(e).last() == e);
    let before = attraction_fold(s, xs, ys, edges, grav);
    assert(epoch_deltas(s, ib, xs, ys, ms, edges) == before);
    assert(epoch_deltas(s, ib, xs, ys, ms, edges.push(e)) == attraction_step(s, xs, ys, before, e));
}

/// A node that no edge touches has an empty adjacency list.
proof fn lemma_untouched_no_stubs<F: Float>(edges: Seq<(usize, usize, F)>, n: int)
    requires
        forall|k: int| 0 <= k < edges.len() ==> (#[trigger] edges[k]).0 != n && edges[k].1 != n,
    ensures
        incident_stubs(edges, n) == Seq::<(usize, F)>::empty(),
    decreases edges.len(),
{
    if edges.len() > 0 {
        let rest = edges.drop_last();
        assert forall|k: int| 0 <= k < rest.len() implies (#[trigger] rest[k]).0 != n && rest[k].1 != n by {
            assert(rest[k] == edges[k]);
        }
        lemma_untouched_no_stubs(rest, n);
        assert(edges.last() == edges[edges.len() - 1]);
        assert(incident_stubs(edges, n) =~= Seq::<(usize, F)>::empty());
    }
}

/// In a parallel epoch too, an edge adds its attraction to the deltas of
/// its endpoints: two parallel epochs over the same nodes, the second graph
/// having one more edge `(a, b, w)` at the end between two nodes that no
/// other edge touches, give the same deltas except at `a` and `b`, where
/// the second epoch's delta gains `(pos(a) - pos(b)) * -(w ^ influence)` at
/// `a` and `(pos(b) - pos(a)) * -(w ^ influence)` at `b`.
pub proof fn lemma_parallel_epoch_adds_edge_attraction<F: Float>(
    pre1: FA2Layout<F>,
    post1: FA2Layout<F>,
    movement1: F,
    pre2: FA2Layout<F>,
    post2: FA2Layout<F>,
    movement2: F,
    a: usize,
    b: usize,
    w: F,
)
    requires
        epoch_step(pre1, post1, movement1),
        epoch_step(pre2, post2, movement2),
        pre1.spec_settings() == pre2.spec_settings(),
        pre1.spec_settings().parallel,
        pre1.spec_data().xs@ == pre2.spec_data().xs@,
        pre1.spec_data().ys@ == pre2.spec_data().ys@,
        pre1.spec_data().ms@ == pre2.spec_data().ms@,
        pre2.spec_data().edges@ == pre1.spec_data().edges@.push((a, b, w)),
        a != b,
        a < pre1.spec_data().xs@.len(),
        b < pre1.spec_data().xs@.len(),
        forall|k: int|
            0 <= k < pre1.spec_data().edges@.len() ==> {
                let e = #[trigger] pre1.spec_data().edges@[k];
                e.0 != a && e.1 != a && e.0 != b && e.1 != b
            },
    ensures
        ({
            let xs = pre1.spec_data().xs@;
            let ys = pre1.spec_data().ys@;
            let pull = w.spec_powf(pre1.spec_settings().edge_weight_influence).spec_neg();
            let p1 = post1.spec_data();
            let p2 = post2.spec_data();
            &&& p2.delta_xs@.len() == p1.delta_xs@.len()
            &&& p2.delta_ys@.len() == p1.delta_ys@.len()
            &&& p2.delta_xs@[a as int] == p1.delta_xs@[a as int].spec_add(
                xs[a as int].spec_sub(xs[b as int]).spec_mul(pull),
            )
            &&& p2.delta_ys@[a as int] == p1.delta_ys@[a as int].spec_add(
                ys[a as int].spec_sub(ys[b as int]).spec_mul(pull),
            )
            &&& p2.delta_xs@[b as int] == p1.delta_xs@[b as int].spec_add(
                xs[b as int].spec_sub(xs[a as int]).spec_mul(pull),
            )
            &&& p2.delta_ys@[b as int] == p1.delta_ys@[b as int].spec_add(
                ys[b as int].spec_sub(ys[a as int]).spec_mul(pull),
            )
            &&& forall|i: int|
                0 <= i < xs.len() && i != a && i != b ==> #[trigger] p2.delta_xs@[i] == p1.delta_xs@[i]
                    && p2.delta_ys@[i] == p1.delta_ys@[i]
        }),
{
    let s = pre1.spec_settings();
    let d = pre1.spec_data();
    let xs = d.xs@;
    let ys = d.ys@;
    let ms = d.ms@;
    let edges = d.edges@;
    let e = (a, b, w);
    let edges2 = edges.push(e);
    let ia = post1.spec_repulsion_index();
    let ib = post2.spec_repulsion_index();
    lemma_same_index_deltas(s, ia, ib, xs, ys, ms, edges);
    assert(edges2.drop_last() =~= edges);
    assert(edges2.last() == e);
    lemma_untouched_no_stubs(edges, a as int);
    lemma_untouched_no_stubs(edges, b as int);
    assert(incident_stubs(edges2, a as int) =~= seq![(b, w)]);
    assert(incident_stubs(edges2, b as int) =~= seq![(a, w)]);
    assert forall|i: int| 0 <= i < xs.len() && i != a && i != b implies incident_stubs(edges2, i)
        == incident_stubs(edges, i) by {
        assert(incident_stubs(edges2, i) =~= incident_stubs(edges, i));
    }
    let sb = seq![(b, w)];
    let sa = seq![(a, w)];
    assert(sb.drop_last() =~= Seq::<(usize, F)>::empty());
    assert(sa.drop_last() =~= Seq::<(usize, F)>::empty());
    assert(sb.last() == (b, w));
    assert(sa.last() == (a, w));
    let da = epoch_deltas(s, ib, xs, ys, ms, edges);
    let db = epoch_deltas(s, ib, xs, ys, ms, edges2);
    assert(da.0[a as int] == node_delta(s, ib, xs, ys, ms, edges, a as int).0);
    assert(db.0[a as int] == node_delta(s, ib, xs, ys, ms, edges2, a as int).0);
    assert(da.0[b as int] == node_delta(s, ib, xs, ys, ms, edges, b as int).0);
    assert(db.0[b as int] == node_delta(s, ib, xs, ys, ms, edges2, b as int).0);
    let ga = gravity_pull(
        s,
        xs[a as int],
        ys[a as int],
        ms[a as int],
        node_repulsion_in(s, ib, xs, ys, ms, a as int).0,
        node_repulsion_in(s, ib, xs, ys, ms, a as int).1,
    );
    let gb = gravity_pull(
        s,
        xs[b as int],
        ys[b as int],
        ms[b as int],
        node_repulsion_in(s, ib, xs, ys, ms, b as int).0,
        node_repulsion_in(s, ib, xs, ys, ms, b as int).1,
    );
    assert(nodewise_attraction(s, xs, ys, a as int, sb.drop_last(), ga) == ga);
    assert(nodewise_attraction(s, xs, ys, b as int, sa.drop_last(), gb) == gb);
    assert(nodewise_attraction(s, xs, ys, a as int, Seq::<(usize, F)>::empty(), ga) == ga);
    assert(nodewise_attraction(s, xs, ys, b as int, Seq::<(usize, F)>::empty(), gb) == gb);
}

impl<F: Float> FA2Layout<F> {
    /// The settings the layout runs with.
    pub closed spec fn spec_settings(&self) -> FA2Settings<F> {
        self.settings
    }

    /// The graph being laid out.
    pub closed spec fn spec_data(&self) -> FA2Data<F> {
        self.data
    }

    /// What the layout keeps to compute repulsion.
    pub closed spec fn spec_repulsion_index(&self) -> RepulsionIndex<F> {
        self.repulsion_index
    }

    /// The layout is consistent: its data is well formed and small enough
    /// to be indexed, it keeps a Barnes-Hut tree exactly when its settings
    /// ask for Barnes-Hut repulsion, and, when it runs in parallel mode, the
    /// adjacency lists of its graph.
    pub closed spec fn wf(&self) -> bool {
        let n = self.data.xs@.len();
        &&& self.data.wf()
        &&& 12 * n + 1 <= usize::MAX
        &&& self.data.edges@.len() * 2 <= usize::MAX
        &&& (self.repulsion_index is Pairwise <==> self.settings.repulsion_mode is Pairwise)
        &&& (self.repulsion_index matches RepulsionIndex::BarnesHut(tree) ==> tree.wf())
        &&& self.settings.parallel ==> (self.neighborhood_index matches Some(index) && {
            &&& index.wf()
            &&& index.spec_order() == n
            &&& forall|i: int|
                0 <= i < n ==> #[trigger] index.spec_stubs(i) == incident_stubs(self.data.edges@, i)
        })
    }

    /// The Barnes-Hut tree, if any, was rebuilt over the current positions,
    /// so that every node that it holds exists.
    pub closed spec fn prepared(&self) -> bool {
        self.repulsion_index matches RepulsionIndex::BarnesHut(tree) ==> {
            &&& tree@.kinds.len() >= 1
            &&& tree.leaves_below(self.data.xs@.len() as int)
        }
    }

    pub(crate) fn new(settings: FA2Settings<F>, data: FA2Data<F>) -> (layout: Self)
        requires
            data.wf(),
            12 * data.xs@.len() + 1 <= usize::MAX,
            data.edges@.len() * 2 <= usize::MAX,
        ensures
            layout.wf(),
            layout.spec_settings() == settings,
            layout.spec_data() == data,
    {
        let repulsion_index = RepulsionIndex::new(&settings.repulsion_mode, data.order());

        let neighborhood_index = if settings.parallel {
            Some(NeighborhoodIndex::from(&data))
        } else {
            None
        };

        Self { settings, data, neighborhood_index, repulsion_index }
    }

    /// Start an epoch: the current deltas become the old ones and are set to
    /// zero, and the Barnes-Hut tree, if any, is rebuilt over the current
    /// positions.
    pub fn prepare_epoch(&mut self)
        requires
            old(self).wf(),
            old(self).spec_settings().repulsion_mode is BarnesHut ==> old(self).spec_data().xs@.len()
                > 0,
        ensures
            final(self).wf(),
            final(self).prepared(),
            final(self).spec_settings() == old(self).spec_settings(),
            final(self).spec_data().xs == old(self).spec_data().xs,
            final(self).spec_data().ys == old(self).spec_data().ys,
            final(self).spec_data().ms == old(self).spec_data().ms,
            final(self).spec_data().edges == old(self).spec_data().edges,
            final(self).spec_data().convergences == old(self).spec_data().convergences,
            final(self).spec_data().old_delta_xs == old(self).spec_data().delta_xs,
            final(self).spec_data().old_delta_ys == old(self).spec_data().delta_ys,
            final(self).spec_data().delta_xs@ == Seq::new(
                old(self).spec_data().xs@.len(),
                |i: int| F::spec_zero(),
            ),
            final(self).spec_data().delta_ys@ == Seq::new(
                old(self).spec_data().xs@.len(),
                |i: int| F::spec_zero(),
            ),
            (final(self).spec_repulsion_index() is Pairwise) == (old(self).spec_repulsion_index() is Pairwise),
            final(self).spec_repulsion_index() matches RepulsionIndex::BarnesHut(tree) ==> tree@
                == tree_of(old(self).spec_data().xs@, old(self).spec_data().ys@, old(self).spec_data().ms@),
    {
        self.data.reset();

        match &mut self.repulsion_index {
            RepulsionIndex::BarnesHut(tree) => {
                let extent = self.data.positions_extent();
                let extent = match extent {
                    Some(e) => e,
                    None => {
                        assert(false);
                        return ;
                    },
                };
                tree.reset_with_extent(extent);
                tree.read(
                    self.data.xs.as_slice(),
                    self.data.ys.as_slice(),
                    self.data.ms.as_slice(),
                );
            },
            RepulsionIndex::Pairwise => {},
        }
    }

    /// The delta of node `n` in parallel mode: its repulsion, gravity and
    /// attraction, from zero, over the current positions.
    pub fn node_delta(&self, n: usize) -> (delta: (F, F))
        requires
            self.wf(),
            self.prepared(),
            self.spec_settings().parallel,
            n < self.spec_data().xs@.len(),
        ensures
            delta == node_delta(
                self.spec_settings(),
                self.spec_repulsion_index(),
                self.spec_data().xs@,
                self.spec_data().ys@,
                self.spec_data().ms@,
                self.spec_data().edges@,
                n as int,
            ),
    {
        let xs = self.data.xs.as_slice();
        let ys = self.data.ys.as_slice();
        let ms = self.data.ms.as_slice();
        let mut out_x = F::zero();
        let mut out_y = F::zero();

        match &self.repulsion_index {
            RepulsionIndex::Pairwise => {
                apply_nodewise_repulsion(
                    &self.settings,
                    xs[n],
                    ys[n],
                    ms[n],
                    xs,
                    ys,
                    ms,
                    &mut out_x,
                    &mut out_y,
                );
            },
            RepulsionIndex::BarnesHut(tree) => {
                tree.apply_repulsion_for_node(
                    &self.settings,
                    n,
                    xs,
                    ys,
                    ms,
                    &mut out_x,
                    &mut out_y,
                );
            },
        };

        apply_nodewise_gravity(&self.settings, xs[n], ys[n], ms[n], &mut out_x, &mut out_y);

        match &self.neighborhood_index {
            Some(neighborhood_index) => {
                proof {
                    lemma_incident_within(
                        self.data.edges@,
                        self.data.xs@.len() as nat,
                        n as int,
                    );
                }
                apply_nodewise_attraction(
                    &self.settings,
                    neighborhood_index,
                    n,
                    xs,
                    ys,
                    &mut out_x,
                    &mut out_y,
                );
            },
            None => {},
        }
        (out_x, out_y)
    }

    /// End an epoch: set the deltas to `deltas` and move every node by its
    /// delta; return the total movement.
    pub fn finish_epoch(&mut self, deltas: &[(F, F)]) -> (movement: F)
        requires
            old(self).wf(),
            deltas@.len() == old(self).spec_data().xs@.len(),
        ensures
            final(self).wf(),
            final(self).prepared() == old(self).prepared(),
            final(self).spec_settings() == old(self).spec_settings(),
            final(self).spec_repulsion_index() == old(self).spec_repulsion_index(),
            moved(
                old(self).spec_settings(),
                old(self).spec_data(),
                Seq::new(deltas@.len(), |i: int| deltas@[i].0),
                Seq::new(deltas@.len(), |i: int| deltas@[i].1),
                final(self).spec_data(),
            ),
            movement == movement_of(
                old(self).spec_settings(),
                old(self).spec_data(),
                Seq::new(deltas@.len(), |i: int| deltas@[i].0),
                Seq::new(deltas@.len(), |i: int| deltas@[i].1),
            ),
    {
        let n = self.data.xs.len();
        let ghost dxs = Seq::new(deltas@.len(), |i: int| deltas@[i].0);
        let ghost dys = Seq::new(deltas@.len(), |i: int| deltas@[i].1);
        let ghost before = self.data;
        let mut i: usize = 0;
        while i < n
            invariant
                n == self.data.xs@.len(),
                deltas@.len() == n,
                dxs == Seq::new(deltas@.len(), |i: int| deltas@[i].0),
                dys == Seq::new(deltas@.len(), |i: int| deltas@[i].1),
                i <= n,
                self.wf(),
                self.settings == old(self).spec_settings(),
                self.repulsion_index == old(self).spec_repulsion_index(),
                self.neighborhood_index == old(self).neighborhood_index,
                self.data == (FA2Data {
                    delta_xs: self.data.delta_xs,
                    delta_ys: self.data.delta_ys,
                    ..before
                }),
                forall|k: int| 0 <= k < i ==> #[trigger] self.data.delta_xs@[k] == dxs[k],
                forall|k: int| 0 <= k < i ==> #[trigger] self.data.delta_ys@[k] == dys[k],
            decreases n - i,
        {
            let (dx, dy) = deltas[i];
            assert(dxs[i as int] == dx && dys[i as int] == dy);
            self.data.delta_xs.set(i, dx);
            self.data.delta_ys.set(i, dy);
            i += 1;
        }
        assert(self.data.delta_xs@ =~= dxs);
        assert(self.data.delta_ys@ =~= dys);
        self.apply_forces_to_data()
    }

    /// Move every node by its current delta; return the total movement.
    fn apply_forces_to_data(&mut self) -> (movement: F)
        requires
            old(self).wf(),
        ensures
            final(self).wf(),
            final(self).prepared() == old(self).prepared(),
            final(self).settings == old(self).settings,
            final(self).repulsion_index == old(self).repulsion_index,
            moved(
                old(self).settings,
                old(self).data,
                old(self).data.delta_xs@,
                old(self).data.delta_ys@,
                final(self).data,
            ),
            movement == movement_of(
                old(self).settings,
                old(self).data,
                old(self).data.delta_xs@,
                old(self).data.delta_ys@,
            ),
    {
        let ghost before = self.data;
        let movement = apply_forces(
            &self.settings,
            self.data.xs.as_mut_slice(),
            self.data.ys.as_mut_slice(),
            self.data.ms.as_slice(),
            self.data.delta_xs.as_slice(),
            self.data.delta_ys.as_slice(),
            self.data.old_delta_xs.as_slice(),
            self.data.old_delta_ys.as_slice(),
            self.data.convergences.as_mut_slice(),
        );
        movement
    }

    /// Run one iteration of the algorithm; return the total movement of the
    /// nodes.
    pub fn epoch(&mut self) -> (movement: F)
        requires
            old(self).wf(),
            old(self).spec_settings().repulsion_mode is BarnesHut ==> old(self).spec_data().xs@.len()
                > 0,
        ensures
            final(self).wf(),
            final(self).prepared(),
            epoch_step(*old(self), *final(self), movement),
    {
        let ghost d = self.data;
        self.prepare_epoch();
        let ghost p = self.data;
        proof {
            assert(p.delta_xs@.len() == d.xs@.len());
            assert(p.delta_ys@.len() == d.xs@.len());
        }

        if self.settings.parallel {
            let n = self.data.xs.len();
            let mut deltas: Vec<(F, F)> = Vec::new();
            let mut i: usize = 0;
            while i < n
                invariant
                    self.wf(),
                    self.prepared(),
                    self.settings.parallel,
                    n == self.data.xs@.len(),
                    i <= n,
                    deltas@.len() == i,
                    forall|k: int|
                        0 <= k < i ==> #[trigger] deltas@[k] == node_delta(
                            self.settings,
                            self.repulsion_index,
                            self.data.xs@,
                            self.data.ys@,
                            self.data.ms@,
                            self.data.edges@,
                            k,
                        ),
                decreases n - i,
            {
                deltas.push(self.node_delta(i));
                i += 1;
            }
            let ghost index = self.repulsion_index;
            let movement = self.finish_epoch(deltas.as_slice());
            proof {
                let e = epoch_deltas(self.settings, index, d.xs@, d.ys@, d.ms@, d.edges@);
                assert(Seq::new(deltas@.len(), |i: int| deltas@[i].0) =~= e.0);
                assert(Seq::new(deltas@.len(), |i: int| deltas@[i].1) =~= e.1);
                assert(p == (FA2Data {
                    delta_xs: p.delta_xs,
                    delta_ys: p.delta_ys,
                    old_delta_xs: d.delta_xs,
                    old_delta_ys: d.delta_ys,
                    ..d
                }));
            }
            movement
        } else {
            let ghost index = self.repulsion_index;
            self.apply_sequential_deltas();
            proof {
                let e = sequential_deltas(self.settings, index, d.xs@, d.ys@, d.ms@, d.edges@);
                assert(self.data.delta_xs@ == e.0);
            }
            self.apply_forces_to_data()
        }
    }

    /// Set the deltas, from zero, to the forces applied to all nodes at
    /// once.
    fn apply_sequential_deltas(&mut self)
        requires
            old(self).wf(),
            old(self).prepared(),
            old(self).data.delta_xs@ == Seq::new(old(self).data.xs@.len(), |i: int| F::spec_zero()),
            old(self).data.delta_ys@ == Seq::new(old(self).data.xs@.len(), |i: int| F::spec_zero()),
        ensures
            final(self).wf(),
            final(self).prepared(),
            final(self).settings == old(self).settings,
            final(self).repulsion_index == old(self).repulsion_index,
            final(self).data == (FA2Data {
                delta_xs: final(self).data.delta_xs,
                delta_ys: final(self).data.delta_ys,
                ..old(self).data
            }),
            (final(self).data.delta_xs@, final(self).data.delta_ys@) == sequential_deltas(
                old(self).settings,
                old(self).repulsion_index,
                old(self).data.xs@,
                old(self).data.ys@,
                old(self).data.ms@,
                old(self).data.edges@,
            ),
    {
        let ghost d = self.data;
        let ghost index = self.repulsion_index;
        let n = self.data.xs.len();
        match &self.repulsion_index {
            RepulsionIndex::Pairwise => {
                apply_pairwise_repulsion(
                    &self.settings,
                    self.data.xs.as_slice(),
                    self.data.ys.as_slice(),
                    self.data.ms.as_slice(),
                    self.data.delta_xs.as_mut_slice(),
                    self.data.delta_ys.as_mut_slice(),
                );
            },
            RepulsionIndex::BarnesHut(tree) => {
                tree.apply_repulsion(
                    &self.settings,
                    self.data.xs.as_slice(),
                    self.data.ys.as_slice(),
                    self.data.ms.as_slice(),
                    self.data.delta_xs.as_mut_slice(),
                    self.data.delta_ys.as_mut_slice(),
                );
            },
        };
        let ghost rep = (self.data.delta_xs@, self.data.delta_ys@);

        apply_gravity(
            &self.settings,
            self.data.xs.as_slice(),
            self.data.ys.as_slice(),
            self.data.ms.as_slice(),
            self.data.delta_xs.as_mut_slice(),
            self.data.delta_ys.as_mut_slice(),
        );
        let ghost grav = (self.data.delta_xs@, self.data.delta_ys@);

        apply_attraction(
            &self.settings,
            self.data.xs.as_slice(),
            self.data.ys.as_slice(),
            self.data.edges.as_slice(),
            self.data.delta_xs.as_mut_slice(),
            self.data.delta_ys.as_mut_slice(),
        );
        proof {
            let s = self.settings;
            let zeros = Seq::new(n as nat, |i: int| F::spec_zero());
            let spec_rep = match index {
                RepulsionIndex::Pairwise => repulsion_rows(s, d.xs@, d.ys@, d.ms@, (zeros, zeros), n as int),
                RepulsionIndex::BarnesHut(tree) => (
                    Seq::new(n as nat, |i: int| tree.node_repulsion(s, i, d.xs@, d.ys@, d.ms@, zero_pair()).0),
                    Seq::new(n as nat, |i: int| tree.node_repulsion(s, i, d.xs@, d.ys@, d.ms@, zero_pair()).1),
                ),
            };
            assert(d.delta_xs@ == zeros);
            assert(d.delta_ys@ == zeros);
            match index {
                RepulsionIndex::Pairwise => {},
                RepulsionIndex::BarnesHut(tree) => {
                    assert forall|i: int| 0 <= i < n implies rep.0[i] == spec_rep.0[i] && rep.1[i]
                        == spec_rep.1[i] by {
                        assert(rep.0[i] == rep.0[i]);
                    }
                    assert(rep.0 =~= spec_rep.0);
                    assert(rep.1 =~= spec_rep.1);
                },
            }
            assert(rep == spec_rep);
            let spec_grav = (
                Seq::new(n as nat, |i: int| gravity_pull(s, d.xs@[i], d.ys@[i], d.ms@[i], spec_rep.0[i], spec_rep.1[i]).0),
                Seq::new(n as nat, |i: int| gravity_pull(s, d.xs@[i], d.ys@[i], d.ms@[i], spec_rep.0[i], spec_rep.1[i]).1),
            );
            assert forall|i: int| 0 <= i < n implies grav.0[i] == spec_grav.0[i] && grav.1[i]
                == spec_grav.1[i] by {
                assert(grav.0[i] == grav.0[i]);
            }
            assert(grav.0 =~= spec_grav.0);
            assert(grav.1 =~= spec_grav.1);
        }
    }

    /// The graph being laid out.
    pub fn data(&self) -> (data: &FA2Data<F>)
        ensures
            *data == self.spec_data(),
    {
        &self.data
    }

    /// Give back the graph being laid out.
    pub fn into_data(self) -> (data: FA2Data<F>)
        ensures
            data == self.spec_data(),
    {
        self.data
    }

    /// The settings the layout runs with.
    pub fn settings(&self) -> (settings: &FA2Settings<F>)
        ensures
            *settings == self.spec_settings(),
    {
        &self.settings
    }

    /// Run the given number of epochs.
    pub fn run(&mut self, iterations: usize)
        requires
            old(self).wf(),
            iterations > 0 && old(self).spec_settings().repulsion_mode is BarnesHut
                ==> old(self).spec_data().xs@.len() > 0,
        ensures
            final(self).wf(),
            exists|states: Seq<FA2Layout<F>>|
                {
                    &&& states.len() == iterations + 1
                    &&& states[0] == *old(self)
                    &&& states[iterations as int] == *final(self)
                    &&& forall|i: int|
                        #![trigger states[i]]
                        0 <= i < iterations ==> epoch_between(states[i], states[i + 1])
                },
    {
        let ghost mut states: Seq<FA2Layout<F>> = seq![*self];
        let mut i: usize = 0;
        while i < iterations
            invariant
                self.wf(),
                i <= iterations,
                self.spec_settings() == old(self).spec_settings(),
                self.spec_data().xs@.len() == old(self).spec_data().xs@.len(),
                iterations > 0 && old(self).spec_settings().repulsion_mode is BarnesHut
                    ==> old(self).spec_data().xs@.len() > 0,
                states.len() == i + 1,
                states[0] == *old(self),
                states[i as int] == *self,
                forall|k: int|
                    #![trigger states[k]]
                    0 <= k < i ==> epoch_between(states[k], states[k + 1]),
            decreases iterations - i,
        {
            let ghost before = *self;
            let movement = self.epoch();
            proof {
                assert(epoch_step(before, *self, movement));
                let prev = states;
                states = states.push(*self);
                assert forall|k: int| #![trigger states[k]] 0 <= k < i + 1 implies epoch_between(
                    states[k],
                    states[k + 1],
                ) by {
                    if k < i {
                        assert(states[k] == prev[k] && states[k + 1] == prev[k + 1]);
                    } else {
                        assert(epoch_step(states[k], states[k + 1], movement));
                    }
                }
            }
            i += 1;
        }
    }
}

} // verus!
