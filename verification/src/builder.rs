use vstd::prelude::*;

use crate::data::{circle_angle, counter, edges_within, extent_of};
use crate::traits::Float;

verus! {

/// Graph data stored node-major: node `n` occupies `nodes[3n..3n + 3]` as
/// `(x, y, mass)`, and its deltas occupy `[2n..2n + 2]` of the delta
/// vectors as `(dx, dy)`.
#[derive(Debug)]
pub struct FA2Data<F: Float> {
    pub nodes: Vec<F>,
    pub deltas: Vec<F>,
    pub last_deltas: Vec<F>,
    pub convergences: Vec<F>,
    pub edges: Vec<(usize, usize, F)>,
}

/// The x coordinates held in a node-major `(x, y, mass)` vector.
pub open spec fn node_xs<F>(nodes: Seq<F>) -> Seq<F> {
    Seq::new(nodes.len() / 3, |k: int| nodes[3 * k])
}

/// The y coordinates held in a node-major `(x, y, mass)` vector.
pub open spec fn node_ys<F>(nodes: Seq<F>) -> Seq<F> {
    Seq::new(nodes.len() / 3, |k: int| nodes[3 * k + 1])
}

/// The masses held in a node-major `(x, y, mass)` vector.
pub open spec fn node_ms<F>(nodes: Seq<F>) -> Seq<F> {
    Seq::new(nodes.len() / 3, |k: int| nodes[3 * k + 2])
}

impl<F: Float> FA2Data<F> {
    /// The invariant that every method keeps: three entries per node, two
    /// per node in each delta vector, one convergence per node, and edges
    /// only between existing nodes.
    pub open spec fn wf(&self) -> bool {
        let n = self.convergences.len();
        &&& self.nodes.len() == 3 * n
        &&& self.deltas.len() == 2 * n
        &&& self.last_deltas.len() == 2 * n
        &&& edges_within(self.edges@, n as nat)
    }

    /// Whether `self` holds no node and no edge.
    pub open spec fn is_empty(&self) -> bool {
        &&& self.nodes@.len() == 0
        &&& self.deltas@.len() == 0
        &&& self.last_deltas@.len() == 0
        &&& self.convergences@.len() == 0
        &&& self.edges@.len() == 0
    }

    /// Create an empty instance.
    pub fn new() -> (d: Self)
        ensures
            d.wf(),
            d.is_empty(),
    {
        Self {
            nodes: Vec::new(),
            deltas: Vec::new(),
            last_deltas: Vec::new(),
            convergences: Vec::new(),
            edges: Vec::new(),
        }
    }

    /// Create an empty instance fitting a given number of nodes and edges
    /// before resizing inner allocations.
    pub fn with_capacity(nodes: usize, edges: usize) -> (d: Self)
        requires
            nodes * 3 <= usize::MAX,
        ensures
            d.wf(),
            d.is_empty(),
    {
        Self {
            nodes: Vec::with_capacity(nodes * 3),
            deltas: Vec::with_capacity(nodes * 2),
            last_deltas: Vec::with_capacity(nodes * 2),
            convergences: Vec::with_capacity(nodes),
            edges: Vec::with_capacity(edges),
        }
    }

    /// Return the number of nodes.
    pub fn order(&self) -> (n: usize)
        ensures
            n == self.nodes.len() / 3,
    {
        self.nodes.len() / 3
    }

    /// Add a node with given position (and a mass of `1`), returning its
    /// index.
    pub fn add_node(&mut self, x: F, y: F) -> (index: usize)
        requires
            old(self).wf(),
        ensures
            final(self).wf(),
            index == old(self).nodes.len() / 3,
            final(self).nodes@ == old(self).nodes@.push(x).push(y).push(F::spec_one()),
            final(self).deltas@ == old(self).deltas@.push(F::spec_zero()).push(F::spec_zero()),
            final(self).last_deltas@ == old(self).last_deltas@.push(F::spec_zero()).push(
                F::spec_zero(),
            ),
            final(self).convergences@ == old(self).convergences@.push(F::spec_one()),
            final(self).edges@ == old(self).edges@,
    {
        let index = self.nodes.len() / 3;

        self.nodes.push(x);
        self.nodes.push(y);
        self.nodes.push(F::one());

        self.deltas.push(F::zero());
        self.deltas.push(F::zero());

        self.last_deltas.push(F::zero());
        self.last_deltas.push(F::zero());

        self.convergences.push(F::one());

        index
    }

    /// Add an edge with given weight. Both endpoints gain `weight` in mass.
    pub fn add_edge_with_weight(&mut self, i: usize, j: usize, weight: F)
        requires
            old(self).wf(),
            i < old(self).convergences.len(),
            j < old(self).convergences.len(),
        ensures
            final(self).wf(),
            final(self).nodes@ == ({
                let first = old(self).nodes@.update(
                    3 * i + 2,
                    old(self).nodes@[3 * i + 2].spec_add(weight),
                );
                first.update(3 * j + 2, first[3 * j + 2].spec_add(weight))
            }),
            final(self).edges@ == old(self).edges@.push((i, j, weight)),
            *final(self) == (FA2Data { nodes: final(self).nodes, edges: final(self).edges, ..*old(self) }),
    {
        let mi = self.nodes[i * 3 + 2].add(weight);
        self.nodes.set(i * 3 + 2, mi);
        let mj = self.nodes[j * 3 + 2].add(weight);
        self.nodes.set(j * 3 + 2, mj);

        self.edges.push((i, j, weight));
        proof {
            let n = self.convergences.len() as nat;
            assert forall|k: int| 0 <= k < self.edges@.len() implies (
            #[trigger] self.edges@[k]).0 < n && self.edges@[k].1 < n by {
                if k < old(self).edges@.len() {
                    assert(self.edges@[k] == old(self).edges@[k]);
                }
            }
        }
    }

    /// Add an edge with a default weight of `1`.
    pub fn add_edge(&mut self, i: usize, j: usize)
        requires
            old(self).wf(),
            i < old(self).convergences.len(),
            j < old(self).convergences.len(),
        ensures
            final(self).wf(),
            final(self).nodes@ == ({
                let first = old(self).nodes@.update(
                    3 * i + 2,
                    old(self).nodes@[3 * i + 2].spec_add(F::spec_one()),
                );
                first.update(3 * j + 2, first[3 * j + 2].spec_add(F::spec_one()))
            }),
            final(self).edges@ == old(self).edges@.push((i, j, F::spec_one())),
            *final(self) == (FA2Data { nodes: final(self).nodes, edges: final(self).edges, ..*old(self) }),
    {
        self.add_edge_with_weight(i, j, F::one());
    }

    /// The `(min_x, max_x, min_y, max_y)` extent of the node positions, or
    /// `None` when there is no node.
    pub fn positions_extent(&self) -> (extent: Option<(F, F, F, F)>)
        requires
            self.wf(),
        ensures
            extent == extent_of(
                node_xs(self.nodes@),
                node_ys(self.nodes@),
                self.convergences.len() as nat,
            ),
            extent is None <==> self.convergences.len() == 0,
    {
        let mut extent: Option<(F, F, F, F)> = None;
        let n = self.nodes.len() / 3;
        let mut k: usize = 0;

        while k < n
            invariant
                self.wf(),
                n == self.convergences.len(),
                k <= n,
                extent == extent_of(node_xs(self.nodes@), node_ys(self.nodes@), k as nat),
            decreases n - k,
        {
            let x = self.nodes[3 * k];
            let y = self.nodes[3 * k + 1];
            match extent {
                None => {
                    extent = Some((x, x, y, y));
                },
                Some((min_x, max_x, min_y, max_y)) => {
                    let mut e = (min_x, max_x, min_y, max_y);
                    if x.lt(min_x) {
                        e.0 = x;
                    }
                    if max_x.lt(x) {
                        e.1 = x;
                    }
                    if y.lt(min_y) {
                        e.2 = y;
                    }
                    if max_y.lt(y) {
                        e.3 = y;
                    }
                    extent = Some(e);
                },
            }
            k += 1;
        }
        proof {
            crate::data::lemma_extent_attained(
                node_xs(self.nodes@),
                node_ys(self.nodes@),
                n as nat,
            );
        }
        extent
    }

    /// Start a new iteration: the current deltas become the last ones, and
    /// the current ones are set to zero.
    pub fn reset(&mut self)
        requires
            old(self).wf(),
        ensures
            final(self).wf(),
            final(self).last_deltas == old(self).deltas,
            final(self).deltas@ == Seq::new(old(self).deltas.len() as nat, |i: int| F::spec_zero()),
            *final(self) == (FA2Data {
                deltas: final(self).deltas,
                last_deltas: final(self).last_deltas,
                ..*old(self)
            }),
    {
        std::mem::swap(&mut self.deltas, &mut self.last_deltas);

        let n = self.deltas.len();
        let ghost swapped = *self;
        let mut i: usize = 0;
        while i < n
            invariant
                *self == (FA2Data { deltas: self.deltas, ..swapped }),
                swapped.last_deltas == old(self).deltas,
                n == self.deltas.len(),
                i <= n,
                forall|k: int| 0 <= k < i ==> self.deltas@[k] == F::spec_zero(),
            decreases n - i,
        {
            self.deltas.set(i, F::zero());
            i += 1;
        }
        assert(self.deltas@ =~= Seq::new(n as nat, |i: int| F::spec_zero()));
    }

    /// Place the nodes evenly on the unit circle, in node order.
    pub fn apply_circular_layout(&mut self)
        requires
            old(self).wf(),
        ensures
            final(self).wf(),
            node_xs(final(self).nodes@) == Seq::new(
                old(self).convergences.len() as nat,
                |k: int| circle_angle::<F>(k as nat, old(self).convergences.len()).spec_cos(),
            ),
            node_ys(final(self).nodes@) == Seq::new(
                old(self).convergences.len() as nat,
                |k: int| circle_angle::<F>(k as nat, old(self).convergences.len()).spec_sin(),
            ),
            node_ms(final(self).nodes@) == node_ms(old(self).nodes@),
            *final(self) == (FA2Data { nodes: final(self).nodes, ..*old(self) }),
    {
        let tau = F::tau();
        let n = self.order();
        let order = F::from_usize(n);

        let mut i = F::zero();
        let mut k: usize = 0;
        let ghost start = *self;

        while k < n
            invariant
                *self == (FA2Data { nodes: self.nodes, ..start }),
                start == *old(self),
                start.wf(),
                self.nodes.len() == 3 * n,
                n == start.convergences.len(),
                k <= n,
                tau == F::spec_tau(),
                order == F::spec_from_usize(n),
                i == counter::<F>(k as nat),
                forall|j: int|
                    0 <= j < k ==> #[trigger] node_xs(self.nodes@)[j] == circle_angle::<F>(
                        j as nat,
                        n,
                    ).spec_cos(),
                forall|j: int|
                    0 <= j < k ==> #[trigger] node_ys(self.nodes@)[j] == circle_angle::<F>(
                        j as nat,
                        n,
                    ).spec_sin(),
                forall|j: int| k <= j < n ==> #[trigger] node_xs(self.nodes@)[j] == node_xs(start.nodes@)[j],
                forall|j: int| k <= j < n ==> #[trigger] node_ys(self.nodes@)[j] == node_ys(start.nodes@)[j],
                node_ms(self.nodes@) == node_ms(start.nodes@),
            decreases n - k,
        {
            let p = i.mul(tau).div(order);

            let ghost before = self.nodes@;
            self.nodes.set(3 * k, p.cos());
            self.nodes.set(3 * k + 1, p.sin());
            proof {
                assert(self.nodes@ == before.update(3 * k, p.spec_cos()).update(3 * k + 1, p.spec_sin()));
                assert forall|j: int| 0 <= j < n && j != k implies #[trigger] node_xs(self.nodes@)[j]
                    == node_xs(before)[j] by {
                    assert(self.nodes@[3 * j] == before[3 * j]);
                }
                assert forall|j: int| 0 <= j < n && j != k implies #[trigger] node_ys(self.nodes@)[j]
                    == node_ys(before)[j] by {
                    assert(self.nodes@[3 * j + 1] == before[3 * j + 1]);
                }
                assert(node_xs(self.nodes@)[k as int] == p.spec_cos());
                assert(node_ys(self.nodes@)[k as int] == p.spec_sin());
                assert(node_ms(self.nodes@) =~= node_ms(before));
            }

            i = i.add(F::one());
            k += 1;
        }
        assert(node_xs(self.nodes@) =~= Seq::new(
            n as nat,
            |j: int| circle_angle::<F>(j as nat, n).spec_cos(),
        ));
        assert(node_ys(self.nodes@) =~= Seq::new(
            n as nat,
            |j: int| circle_angle::<F>(j as nat, n).spec_sin(),
        ));
    }
}

impl<F: Float> Default for FA2Data<F> {
    fn default() -> (d: Self)
        ensures
            d.wf(),
            d.is_empty(),
    {
        Self::new()
    }
}

} // verus!
