use vstd::prelude::*;

use crate::data::extent_of;
use crate::settings::FA2Settings;
use crate::traits::{two, Float};

verus! {

/// How many times in a row inserting a node may split a region without
/// separating it from the node already there; past that, the node is left
/// out of the tree.
pub const SUBDIVISION_ATTEMPTS: usize = 3;

/// The four quadrants of a region, in the order in which its sub-regions
/// are stored.
#[derive(Clone, Copy, PartialEq, Eq, Structural)]
pub enum Quadrant {
    TopLeft,
    BottomLeft,
    TopRight,
    BottomRight,
}

impl Quadrant {
    /// The position of the quadrant's sub-region among its siblings.
    pub open spec fn position(self) -> nat {
        match self {
            Quadrant::TopLeft => 0,
            Quadrant::BottomLeft => 1,
            Quadrant::TopRight => 2,
            Quadrant::BottomRight => 3,
        }
    }

    /// The index of the quadrant's sub-region, given the index of the first
    /// sub-region.
    pub fn offset(self, index: usize) -> (r: usize)
        requires
            index + 3 <= usize::MAX,
        ensures
            r == index + self.position(),
    {
        match self {
            Quadrant::TopLeft => index,
            Quadrant::BottomLeft => index + 1,
            Quadrant::TopRight => index + 2,
            Quadrant::BottomRight => index + 3,
        }
    }
}

/// The quadrant, relative to the center `(cx, cy)`, in which `(x, y)` lies.
pub open spec fn quadrant_of<F: Float>(x: F, y: F, cx: F, cy: F) -> Quadrant {
    if x.spec_lt(cx) {
        if y.spec_lt(cy) {
            Quadrant::TopLeft
        } else {
            Quadrant::BottomLeft
        }
    } else if y.spec_lt(cy) {
        Quadrant::TopRight
    } else {
        Quadrant::BottomRight
    }
}

/// Find the quadrant, relative to the center `(cx, cy)`, in which `(x, y)`
/// lies.
pub fn quadrant<F: Float>(x: F, y: F, cx: F, cy: F) -> (q: Quadrant)
    ensures
        q == quadrant_of(x, y, cx, cy),
{
    if x.lt(cx) {
        if y.lt(cy) {
            Quadrant::TopLeft
        } else {
            Quadrant::BottomLeft
        }
    } else if y.lt(cy) {
        Quadrant::TopRight
    } else {
        Quadrant::BottomRight
    }
}

/// What a region of the tree holds.
#[derive(Debug, Clone, Copy, PartialEq)]
pub enum RegionKind<F: Float> {
    /// No node.
    Empty,
    /// A single node.
    Leaf { node: usize },
    /// Several nodes, spread over four sub-regions stored from
    /// `first_child` on; `mass` is their total mass and `(mass_center_x,
    /// mass_center_y)` their center of mass.
    Internal { first_child: usize, mass: F, mass_center_x: F, mass_center_y: F },
}

/// A quadtree over the node positions. Regions are stored column-wise; the
/// root is region `0`, the sub-regions of an internal region are stored
/// next to each other, and `next_siblings` links each region to the region
/// that a depth-first walk visits once it is done with this one.
#[derive(Debug, PartialEq)]
pub struct BarnesHutTree<F: Float> {
    kinds: Vec<RegionKind<F>>,
    center_xs: Vec<F>,
    center_ys: Vec<F>,
    sizes: Vec<F>,
    next_siblings: Vec<Option<usize>>,
}

/// The bounds `(min_x, max_x, min_y, max_y)` widened, around their middle,
/// to a square.
pub open spec fn squarified<F: Float>(extent: (F, F, F, F)) -> (F, F, F, F) {
    let (min_x, max_x, min_y, max_y) = extent;
    let dx = max_x.spec_sub(min_x);
    let dy = max_y.spec_sub(min_y);
    if dy.spec_lt(dx) {
        let min_y = min_y.spec_sub(dx.spec_sub(dy).spec_div(two::<F>()));
        (min_x, max_x, min_y, min_y.spec_add(dx))
    } else {
        let min_x = min_x.spec_sub(dy.spec_sub(dx).spec_div(two::<F>()));
        (min_x, min_x.spec_add(dy), min_y, max_y)
    }
}

/// The center and size of the root region for the given extent.
pub open spec fn root_region<F: Float>(extent: (F, F, F, F)) -> (F, F, F) {
    let (min_x, max_x, min_y, max_y) = squarified(extent);
    (
        min_x.spec_add(max_x).spec_div(two::<F>()),
        min_y.spec_add(max_y).spec_div(two::<F>()),
        max_x.spec_sub(min_x).spec_max(max_y.spec_sub(min_y)),
    )
}

/// The contents of a [`BarnesHutTree`], as sequences.
pub struct TreeModel<F: Float> {
    pub kinds: Seq<RegionKind<F>>,
    pub center_xs: Seq<F>,
    pub center_ys: Seq<F>,
    pub sizes: Seq<F>,
    pub next_siblings: Seq<Option<usize>>,
}

/// The tree made of the root region alone, squarely holding `extent`.
pub open spec fn root_model<F: Float>(extent: (F, F, F, F)) -> TreeModel<F> {
    TreeModel {
        kinds: seq![RegionKind::Empty],
        center_xs: seq![root_region(extent).0],
        center_ys: seq![root_region(extent).1],
        sizes: seq![root_region(extent).2],
        next_siblings: seq![None],
    }
}

/// The tree once leaf region `r`, which holds `node` at `(node_x, node_y)`
/// with mass `node_mass`, was split: `r` becomes internal with `node` as its
/// only mass, and its four sub-regions, of half its size, are stored at the
/// end, the one of `node_quadrant` holding `node`.
pub open spec fn split_model<F: Float>(
    t: TreeModel<F>,
    r: int,
    node: usize,
    node_x: F,
    node_y: F,
    node_mass: F,
    node_quadrant: Quadrant,
) -> TreeModel<F> {
    let l = t.kinds.len() as int;
    let cx = t.center_xs[r];
    let cy = t.center_ys[r];
    let half = t.sizes[r].spec_div(two::<F>());
    TreeModel {
        kinds: t.kinds.update(
            r,
            RegionKind::Internal {
                first_child: l as usize,
                mass: node_mass,
                mass_center_x: node_x,
                mass_center_y: node_y,
            },
        ) + Seq::new(
            4,
            |i: int|
                if i == node_quadrant.position() {
                    RegionKind::Leaf { node }
                } else {
                    RegionKind::Empty
                },
        ),
        center_xs: t.center_xs + seq![
            cx.spec_sub(half),
            cx.spec_sub(half),
            cx.spec_add(half),
            cx.spec_add(half),
        ],
        center_ys: t.center_ys + seq![
            cy.spec_sub(half),
            cy.spec_add(half),
            cy.spec_sub(half),
            cy.spec_add(half),
        ],
        sizes: t.sizes + seq![half, half, half, half],
        next_siblings: t.next_siblings + seq![
            Some((l + 1) as usize),
            Some((l + 2) as usize),
            Some((l + 3) as usize),
            t.next_siblings[r],
        ],
    }
}

/// The tree once node `n` was sent down from region `r`, with `attempts`
/// splits left, in at most `fuel` steps. In an internal region, the node
/// joins its mass and center of mass and goes on into the sub-region of its
/// quadrant; an empty region takes the node; a leaf is split, and the node
/// then goes into the sub-region of its quadrant if that one is empty, and
/// otherwise into that sub-region again while splits are left (none left:
/// the node is left out).
pub open spec fn insert_from<F: Float>(
    t: TreeModel<F>,
    xs: Seq<F>,
    ys: Seq<F>,
    ms: Seq<F>,
    n: int,
    r: int,
    attempts: nat,
    fuel: nat,
) -> TreeModel<F>
    decreases fuel,
{
    if fuel == 0 {
        t
    } else {
        let x = xs[n];
        let y = ys[n];
        let m = ms[n];
        let cx = t.center_xs[r];
        let cy = t.center_ys[r];
        let fuel = (fuel - 1) as nat;
        match t.kinds[r] {
            RegionKind::Internal { first_child, mass, mass_center_x, mass_center_y } => {
                let q = quadrant_of(x, y, cx, cy);
                let kind = RegionKind::Internal {
                    first_child,
                    mass: mass.spec_add(m),
                    mass_center_x: mass_center_x.spec_mul(mass).spec_add(x.spec_mul(m)).spec_div(
                        mass.spec_add(m),
                    ),
                    mass_center_y: mass_center_y.spec_mul(mass).spec_add(y.spec_mul(m)).spec_div(
                        mass.spec_add(m),
                    ),
                };
                insert_from(
                    TreeModel { kinds: t.kinds.update(r, kind), ..t },
                    xs,
                    ys,
                    ms,
                    n,
                    first_child + q.position(),
                    attempts,
                    fuel,
                )
            },
            RegionKind::Leaf { node } => {
                let old_q = quadrant_of(xs[node as int], ys[node as int], cx, cy);
                let new_q = quadrant_of(x, y, cx, cy);
                let l = t.kinds.len() as int;
                let split = split_model(
                    t,
                    r,
                    node,
                    xs[node as int],
                    ys[node as int],
                    ms[node as int],
                    old_q,
                );
                if old_q == new_q {
                    if attempts > 1 {
                        insert_from(
                            split,
                            xs,
                            ys,
                            ms,
                            n,
                            l + old_q.position(),
                            (attempts - 1) as nat,
                            fuel,
                        )
                    } else {
                        split
                    }
                } else {
                    TreeModel {
                        kinds: split.kinds.update(
                            l + new_q.position(),
                            RegionKind::Leaf { node: n as usize },
                        ),
                        ..split
                    }
                }
            },
            RegionKind::Empty => TreeModel {
                kinds: t.kinds.update(r, RegionKind::Leaf { node: n as usize }),
                ..t
            },
        }
    }
}

/// The tree once the first `k` nodes were inserted, in order, from the
/// root.
pub open spec fn read_model<F: Float>(
    t: TreeModel<F>,
    xs: Seq<F>,
    ys: Seq<F>,
    ms: Seq<F>,
    k: nat,
) -> TreeModel<F>
    decreases k,
{
    if k == 0 {
        t
    } else {
        let prev = read_model(t, xs, ys, ms, (k - 1) as nat);
        insert_from(
            prev,
            xs,
            ys,
            ms,
            k - 1,
            0,
            SUBDIVISION_ATTEMPTS as nat,
            (prev.kinds.len() + 15) as nat,
        )
    }
}

/// The tree that holds the given positions: the root squarely holds their
/// extent, and every node was inserted, in order.
pub open spec fn tree_of<F: Float>(xs: Seq<F>, ys: Seq<F>, ms: Seq<F>) -> TreeModel<F> {
    read_model(root_model(extent_of(xs, ys, xs.len()).unwrap()), xs, ys, ms, xs.len())
}

impl<F: Float> View for BarnesHutTree<F> {
    type V = TreeModel<F>;

    closed spec fn view(&self) -> TreeModel<F> {
        TreeModel {
            kinds: self.kinds@,
            center_xs: self.center_xs@,
            center_ys: self.center_ys@,
            sizes: self.sizes@,
            next_siblings: self.next_siblings@,
        }
    }
}

/// The regions of a tree come in fours under their parent: there are
/// `1 + 4k` of them, the four sub-regions of an internal region have half
/// its size and are chained by their sibling links, the last one linking to
/// the region's own next sibling, and no two internal regions share
/// sub-regions.
pub open spec fn regular<F: Float>(t: TreeModel<F>) -> bool {
    let len = t.kinds.len();
    &&& len % 4 == 1
    &&& forall|r: int|
        0 <= r < len && (#[trigger] t.kinds[r]) is Internal ==> {
            let c = t.kinds[r]->first_child as int;
            let half = t.sizes[r].spec_div(two::<F>());
            &&& t.sizes[c] == half
            &&& t.sizes[c + 1] == half
            &&& t.sizes[c + 2] == half
            &&& t.sizes[c + 3] == half
            &&& t.next_siblings[c] == Some((c + 1) as usize)
            &&& t.next_siblings[c + 1] == Some((c + 2) as usize)
            &&& t.next_siblings[c + 2] == Some((c + 3) as usize)
            &&& t.next_siblings[c + 3] == t.next_siblings[r]
        }
    &&& forall|r1: int, r2: int|
        0 <= r1 < len && 0 <= r2 < len && r1 != r2 && (#[trigger] t.kinds[r1]) is Internal && (
        #[trigger] t.kinds[r2]) is Internal ==> t.kinds[r1]->first_child != t.kinds[r2]->first_child
}

/// Whether node `n` is held by a leaf among `kinds`.
pub open spec fn held<F: Float>(kinds: Seq<RegionKind<F>>, n: int) -> bool {
    exists|r: int| 0 <= r < kinds.len() && (#[trigger] kinds[r]) is Leaf && kinds[r]->node == n
}

/// The vectors of `t` have one entry per region, and sub-regions come
/// after their parent and exist.
spec fn model_shape<F: Float>(t: TreeModel<F>) -> bool {
    &&& t.sizes.len() == t.kinds.len()
    &&& t.next_siblings.len() == t.kinds.len()
    &&& forall|x: int|
        0 <= x < t.kinds.len() && (#[trigger] t.kinds[x]) is Internal ==> x < t.kinds[x]->first_child
            && t.kinds[x]->first_child + 3 < t.kinds.len()
}

/// Splitting a leaf keeps a tree regular, and keeps every node it holds.
proof fn lemma_split_regular<F: Float>(
    t: TreeModel<F>,
    r: int,
    node: usize,
    node_x: F,
    node_y: F,
    node_mass: F,
    q: Quadrant,
)
    requires
        regular(t),
        model_shape(t),
        0 <= r < t.kinds.len(),
        t.kinds.len() + 4 <= usize::MAX,
        t.kinds[r] == (RegionKind::<F>::Leaf { node }),
    ensures
        regular(split_model(t, r, node, node_x, node_y, node_mass, q)),
        forall|k: int|
            #[trigger] held(t.kinds, k) ==> held(split_model(t, r, node, node_x, node_y, node_mass, q).kinds, k),
{
    let s = split_model(t, r, node, node_x, node_y, node_mass, q);
    let l = t.kinds.len() as int;
    assert(s.kinds.len() == l + 4);
    assert forall|x: int| 0 <= x < l && x != r implies #[trigger] s.kinds[x] == t.kinds[x] by {}
    assert forall|x: int| l <= x < l + 4 implies !(#[trigger] s.kinds[x] is Internal) by {}
    assert forall|x: int| 0 <= x < l implies #[trigger] s.sizes[x] == t.sizes[x] by {}
    assert forall|x: int| 0 <= x < l implies #[trigger] s.next_siblings[x] == t.next_siblings[x] by {}
    let half = t.sizes[r].spec_div(two::<F>());
    assert(s.sizes[l] == half && s.sizes[l + 1] == half && s.sizes[l + 2] == half && s.sizes[l + 3]
        == half);
    assert(s.next_siblings[l] == Some((l + 1) as usize));
    assert(s.next_siblings[l + 1] == Some((l + 2) as usize));
    assert(s.next_siblings[l + 2] == Some((l + 3) as usize));
    assert(s.next_siblings[l + 3] == t.next_siblings[r]);
    assert forall|x: int| 0 <= x < l + 4 && (#[trigger] s.kinds[x]) is Internal implies {
        let c = s.kinds[x]->first_child as int;
        let h = s.sizes[x].spec_div(two::<F>());
        &&& s.sizes[c] == h
        &&& s.sizes[c + 1] == h
        &&& s.sizes[c + 2] == h
        &&& s.sizes[c + 3] == h
        &&& s.next_siblings[c] == Some((c + 1) as usize)
        &&& s.next_siblings[c + 1] == Some((c + 2) as usize)
        &&& s.next_siblings[c + 2] == Some((c + 3) as usize)
        &&& s.next_siblings[c + 3] == s.next_siblings[x]
    } by {
        if x != r {
            assert(x < l);
            assert(t.kinds[x] is Internal);
            let c = t.kinds[x]->first_child as int;
            assert(s.sizes[c] == t.sizes[c]);
            assert(s.sizes[c + 1] == t.sizes[c + 1]);
            assert(s.sizes[c + 2] == t.sizes[c + 2]);
            assert(s.sizes[c + 3] == t.sizes[c + 3]);
            assert(s.next_siblings[c] == t.next_siblings[c]);
            assert(s.next_siblings[c + 1] == t.next_siblings[c + 1]);
            assert(s.next_siblings[c + 2] == t.next_siblings[c + 2]);
            assert(s.next_siblings[c + 3] == t.next_siblings[c + 3]);
        }
    }
    assert forall|r1: int, r2: int|
        0 <= r1 < l + 4 && 0 <= r2 < l + 4 && r1 != r2 && (#[trigger] s.kinds[r1]) is Internal && (
        #[trigger] s.kinds[r2]) is Internal implies s.kinds[r1]->first_child != s.kinds[r2]->first_child by {
        if r1 != r && r2 != r {
            assert(t.kinds[r1] is Internal && t.kinds[r2] is Internal);
        } else if r1 == r {
            assert(r2 < l && t.kinds[r2] is Internal);
        } else {
            assert(r1 < l && t.kinds[r1] is Internal);
        }
    }
    let p = l + q.position();
    assert(s.kinds[p] == (RegionKind::<F>::Leaf { node }));
    assert forall|k: int| #[trigger] held(t.kinds, k) implies held(s.kinds, k) by {
        let w = choose|w: int| 0 <= w < t.kinds.len() && (#[trigger] t.kinds[w]) is Leaf && t.kinds[w]->node == k;
        if w == r {
            assert(s.kinds[p] is Leaf && s.kinds[p]->node == k);
        } else {
            assert(s.kinds[w] == t.kinds[w]);
        }
    }
}

/// Whether node `n`, sent down from region `r` of `t` with `attempts`
/// splits left and at most `fuel` steps, gets a leaf of its own: it does
/// when it reaches an empty region, or a leaf whose node falls in another
/// quadrant than its own; it does not when the splits run out while both
/// nodes keep falling in the same quadrant, or when the steps run out.
pub open spec fn placed<F: Float>(
    t: TreeModel<F>,
    xs: Seq<F>,
    ys: Seq<F>,
    ms: Seq<F>,
    n: int,
    r: int,
    attempts: nat,
    fuel: nat,
) -> bool
    decreases fuel,
{
    if fuel == 0 {
        false
    } else {
        let x = xs[n];
        let y = ys[n];
        let m = ms[n];
        let cx = t.center_xs[r];
        let cy = t.center_ys[r];
        let fuel = (fuel - 1) as nat;
        match t.kinds[r] {
            RegionKind::Internal { first_child, mass, mass_center_x, mass_center_y } => {
                let q = quadrant_of(x, y, cx, cy);
                let kind = RegionKind::Internal {
                    first_child,
                    mass: mass.spec_add(m),
                    mass_center_x: mass_center_x.spec_mul(mass).spec_add(x.spec_mul(m)).spec_div(
                        mass.spec_add(m),
                    ),
                    mass_center_y: mass_center_y.spec_mul(mass).spec_add(y.spec_mul(m)).spec_div(
                        mass.spec_add(m),
                    ),
                };
                placed(
                    TreeModel { kinds: t.kinds.update(r, kind), ..t },
                    xs,
                    ys,
                    ms,
                    n,
                    first_child + q.position(),
                    attempts,
                    fuel,
                )
            },
            RegionKind::Leaf { node } => {
                let old_q = quadrant_of(xs[node as int], ys[node as int], cx, cy);
                let new_q = quadrant_of(x, y, cx, cy);
                let split = split_model(
                    t,
                    r,
                    node,
                    xs[node as int],
                    ys[node as int],
                    ms[node as int],
                    old_q,
                );
                if old_q == new_q {
                    attempts > 1 && placed(
                        split,
                        xs,
                        ys,
                        ms,
                        n,
                        t.kinds.len() + old_q.position() as int,
                        (attempts - 1) as nat,
                        fuel,
                    )
                } else {
                    true
                }
            },
            RegionKind::Empty => true,
        }
    }
}

/// Whether node `k` gets a leaf of its own when it is inserted, after the
/// nodes before it, into the tree that starts as `t`.
pub open spec fn kept<F: Float>(t: TreeModel<F>, xs: Seq<F>, ys: Seq<F>, ms: Seq<F>, k: int) -> bool {
    let prev = read_model(t, xs, ys, ms, k as nat);
    placed(prev, xs, ys, ms, k, 0, SUBDIVISION_ATTEMPTS as nat, (prev.kinds.len() + 15) as nat)
}

/// Whether node `n`, sent down from region `r` of `t` with `attempts`
/// splits left and at most `fuel` steps, is left out: the walk reaches a
/// leaf whose node falls in the same quadrant as `n` when no split is left
/// but that one, so that `n` shared its quadrant with the resident node
/// through `attempts` splits in a row.
pub open spec fn crowded<F: Float>(
    t: TreeModel<F>,
    xs: Seq<F>,
    ys: Seq<F>,
    ms: Seq<F>,
    n: int,
    r: int,
    attempts: nat,
    fuel: nat,
) -> bool
    decreases fuel,
{
    if fuel == 0 {
        false
    } else {
        let x = xs[n];
        let y = ys[n];
        let m = ms[n];
        let cx = t.center_xs[r];
        let cy = t.center_ys[r];
        let fuel = (fuel - 1) as nat;
        match t.kinds[r] {
            RegionKind::Internal { first_child, mass, mass_center_x, mass_center_y } => {
                let q = quadrant_of(x, y, cx, cy);
                let kind = RegionKind::Internal {
                    first_child,
                    mass: mass.spec_add(m),
                    mass_center_x: mass_center_x.spec_mul(mass).spec_add(x.spec_mul(m)).spec_div(
                        mass.spec_add(m),
                    ),
                    mass_center_y: mass_center_y.spec_mul(mass).spec_add(y.spec_mul(m)).spec_div(
                        mass.spec_add(m),
                    ),
                };
                crowded(
                    TreeModel { kinds: t.kinds.update(r, kind), ..t },
                    xs,
                    ys,
                    ms,
                    n,
                    first_child + q.position(),
                    attempts,
                    fuel,
                )
            },
            RegionKind::Leaf { node } => {
                let old_q = quadrant_of(xs[node as int], ys[node as int], cx, cy);
                let new_q = quadrant_of(x, y, cx, cy);
                let split = split_model(
                    t,
                    r,
                    node,
                    xs[node as int],
                    ys[node as int],
                    ms[node as int],
                    old_q,
                );
                old_q == new_q && (attempts <= 1 || crowded(
                    split,
                    xs,
                    ys,
                    ms,
                    n,
                    t.kinds.len() + old_q.position() as int,
                    (attempts - 1) as nat,
                    fuel,
                ))
            },
            RegionKind::Empty => false,
        }
    }
}

/// Whether node `k` is left out when it is inserted, after the nodes before
/// it, into the tree that starts as `t`: it shared its quadrant with the
/// node already there through [`SUBDIVISION_ATTEMPTS`] splits in a row.
pub open spec fn left_out<F: Float>(t: TreeModel<F>, xs: Seq<F>, ys: Seq<F>, ms: Seq<F>, k: int) -> bool {
    let prev = read_model(t, xs, ys, ms, k as nat);
    crowded(prev, xs, ys, ms, k, 0, SUBDIVISION_ATTEMPTS as nat, (prev.kinds.len() + 15) as nat)
}

/// With enough steps, a walk that inserts a node never runs out of them:
/// the node either gets a leaf of its own or is left out after its splits.
/// Every step moves forward in the regions (down into a sub-region, which
/// comes after its parent) or spends a split.
proof fn lemma_placed_or_crowded<F: Float>(
    t: TreeModel<F>,
    xs: Seq<F>,
    ys: Seq<F>,
    ms: Seq<F>,
    n: int,
    r: int,
    attempts: nat,
    fuel: nat,
)
    requires
        model_shape(t),
        0 <= r < t.kinds.len(),
        attempts >= 1,
        t.kinds.len() + 4 * attempts <= usize::MAX,
        fuel >= (t.kinds.len() - r) + 5 * attempts,
    ensures
        placed(t, xs, ys, ms, n, r, attempts, fuel) || crowded(t, xs, ys, ms, n, r, attempts, fuel),
    decreases fuel,
{
    let x = xs[n];
    let y = ys[n];
    let m = ms[n];
    let cx = t.center_xs[r];
    let cy = t.center_ys[r];
    let f = (fuel - 1) as nat;
    match t.kinds[r] {
        RegionKind::Internal { first_child, mass, mass_center_x, mass_center_y } => {
            let q = quadrant_of(x, y, cx, cy);
            let kind = RegionKind::Internal {
                first_child,
                mass: mass.spec_add(m),
                mass_center_x: mass_center_x.spec_mul(mass).spec_add(x.spec_mul(m)).spec_div(
                    mass.spec_add(m),
                ),
                mass_center_y: mass_center_y.spec_mul(mass).spec_add(y.spec_mul(m)).spec_div(
                    mass.spec_add(m),
                ),
            };
            let u = TreeModel { kinds: t.kinds.update(r, kind), ..t };
            assert(model_shape(u)) by {
                assert forall|z: int| 0 <= z < u.kinds.len() && (#[trigger] u.kinds[z]) is Internal implies z
                    < u.kinds[z]->first_child && u.kinds[z]->first_child + 3 < u.kinds.len() by {
                    assert(t.kinds[z] is Internal);
                }
            }
            lemma_placed_or_crowded(u, xs, ys, ms, n, first_child + q.position(), attempts, f);
        },
        RegionKind::Leaf { node } => {
            let old_q = quadrant_of(xs[node as int], ys[node as int], cx, cy);
            let new_q = quadrant_of(x, y, cx, cy);
            let l = t.kinds.len() as int;
            if old_q == new_q && attempts > 1 {
                lemma_split_shape(t, r, node, xs[node as int], ys[node as int], ms[node as int], old_q);
                let split = split_model(
                    t,
                    r,
                    node,
                    xs[node as int],
                    ys[node as int],
                    ms[node as int],
                    old_q,
                );
                lemma_placed_or_crowded(split, xs, ys, ms, n, l + old_q.position(), (attempts - 1) as nat, f);
            }
        },
        RegionKind::Empty => {},
    }
}

/// Splitting a leaf keeps the shape of a tree.
proof fn lemma_split_shape<F: Float>(
    t: TreeModel<F>,
    r: int,
    node: usize,
    node_x: F,
    node_y: F,
    node_mass: F,
    q: Quadrant,
)
    requires
        model_shape(t),
        0 <= r < t.kinds.len(),
        t.kinds.len() + 4 <= usize::MAX,
        t.kinds[r] is Leaf,
    ensures
        model_shape(split_model(t, r, node, node_x, node_y, node_mass, q)),
{
    let s = split_model(t, r, node, node_x, node_y, node_mass, q);
    let l = t.kinds.len() as int;
    assert forall|x: int| 0 <= x < l + 4 && (#[trigger] s.kinds[x]) is Internal implies x
        < s.kinds[x]->first_child && s.kinds[x]->first_child + 3 < l + 4 by {
        if x != r && x < l {
            assert(s.kinds[x] == t.kinds[x]);
        }
    }
}

/// A node that gets a leaf of its own is held by the tree once inserted.
proof fn lemma_placed_held<F: Float>(
    t: TreeModel<F>,
    xs: Seq<F>,
    ys: Seq<F>,
    ms: Seq<F>,
    n: int,
    r: int,
    attempts: nat,
    fuel: nat,
)
    requires
        model_shape(t),
        0 <= r < t.kinds.len(),
        0 <= n <= usize::MAX,
        attempts >= 1,
        t.kinds.len() + 4 * attempts <= usize::MAX,
        placed(t, xs, ys, ms, n, r, attempts, fuel),
    ensures
        held(insert_from(t, xs, ys, ms, n, r, attempts, fuel).kinds, n),
    decreases fuel,
{
    let x = xs[n];
    let y = ys[n];
    let m = ms[n];
    let cx = t.center_xs[r];
    let cy = t.center_ys[r];
    let f = (fuel - 1) as nat;
    match t.kinds[r] {
        RegionKind::Internal { first_child, mass, mass_center_x, mass_center_y } => {
            let q = quadrant_of(x, y, cx, cy);
            let kind = RegionKind::Internal {
                first_child,
                mass: mass.spec_add(m),
                mass_center_x: mass_center_x.spec_mul(mass).spec_add(x.spec_mul(m)).spec_div(
                    mass.spec_add(m),
                ),
                mass_center_y: mass_center_y.spec_mul(mass).spec_add(y.spec_mul(m)).spec_div(
                    mass.spec_add(m),
                ),
            };
            let u = TreeModel { kinds: t.kinds.update(r, kind), ..t };
            assert(model_shape(u)) by {
                assert forall|z: int| 0 <= z < u.kinds.len() && (#[trigger] u.kinds[z]) is Internal implies z
                    < u.kinds[z]->first_child && u.kinds[z]->first_child + 3 < u.kinds.len() by {
                    assert(t.kinds[z] is Internal);
                }
            }
            lemma_placed_held(u, xs, ys, ms, n, first_child + q.position(), attempts, f);
        },
        RegionKind::Leaf { node } => {
            let old_q = quadrant_of(xs[node as int], ys[node as int], cx, cy);
            let new_q = quadrant_of(x, y, cx, cy);
            let l = t.kinds.len() as int;
            let split = split_model(
                t,
                r,
                node,
                xs[node as int],
                ys[node as int],
                ms[node as int],
                old_q,
            );
            lemma_split_shape(t, r, node, xs[node as int], ys[node as int], ms[node as int], old_q);
            if old_q == new_q {
                lemma_placed_held(split, xs, ys, ms, n, l + old_q.position(), (attempts - 1) as nat, f);
            } else {
                let k = split.kinds.update(l + new_q.position(), RegionKind::Leaf { node: n as usize });
                assert(k[l + new_q.position()] == (RegionKind::<F>::Leaf { node: n as usize }));
            }
        },
        RegionKind::Empty => {
            let k = t.kinds.update(r, RegionKind::Leaf { node: n as usize });
            assert(k[r] == (RegionKind::<F>::Leaf { node: n as usize }));
        },
    }
}

/// Changing what a non-leaf region holds, while an internal region keeps
/// its sub-regions, keeps a tree regular and keeps every node it holds.
proof fn lemma_update_regular<F: Float>(t: TreeModel<F>, r: int, kind: RegionKind<F>)
    requires
        regular(t),
        0 <= r < t.kinds.len(),
        !(t.kinds[r] is Leaf),
        (kind is Internal) == (t.kinds[r] is Internal),
        kind is Internal ==> kind->first_child == t.kinds[r]->first_child,
    ensures
        regular(TreeModel { kinds: t.kinds.update(r, kind), ..t }),
        forall|k: int|
            #[trigger] held(t.kinds, k) ==> held(t.kinds.update(r, kind), k),
{
    let u = TreeModel { kinds: t.kinds.update(r, kind), ..t };
    assert forall|x: int| 0 <= x < u.kinds.len() && (#[trigger] u.kinds[x]) is Internal implies t.kinds[x]
        is Internal && u.kinds[x]->first_child == t.kinds[x]->first_child by {}
    assert forall|r1: int, r2: int|
        0 <= r1 < u.kinds.len() && 0 <= r2 < u.kinds.len() && r1 != r2 && (#[trigger] u.kinds[r1]) is Internal && (
        #[trigger] u.kinds[r2]) is Internal implies u.kinds[r1]->first_child != u.kinds[r2]->first_child by {
        assert(t.kinds[r1] is Internal && t.kinds[r2] is Internal);
    }
    assert forall|k: int| #[trigger] held(t.kinds, k) implies held(u.kinds, k) by {
        let w = choose|w: int| 0 <= w < t.kinds.len() && (#[trigger] t.kinds[w]) is Leaf && t.kinds[w]->node == k;
        assert(u.kinds[w] == t.kinds[w]);
    }
}

/// The rank that region `x` gets once region `r` of a tree of `len`
/// regions was split into four new regions stored from `len` on: the new
/// regions come right after `r`, and everything that came after `r` moves
/// four places later.
pub open spec fn split_rank(rank: Seq<int>, r: int, len: int, x: int) -> int {
    if x < len {
        if rank[x] > rank[r] {
            rank[x] + 4
        } else {
            rank[x]
        }
    } else {
        rank[r] + 1 + (x - len)
    }
}

/// Changing only what leaves and empty regions hold, or the masses of
/// internal regions, keeps the shape of a tree.
proof fn lemma_kinds_stable<F: Float>(old: BarnesHutTree<F>, new: BarnesHutTree<F>, rank: Seq<int>)
    requires
        old.shape_ok(),
        old.ranks_ok(rank),
        new.kinds@.len() == old.kinds@.len(),
        new.center_xs@.len() == old.center_xs@.len(),
        new.center_ys@.len() == old.center_ys@.len(),
        new.sizes@.len() == old.sizes@.len(),
        new.next_siblings@ == old.next_siblings@,
        forall|r: int|
            0 <= r < new.kinds@.len() && (#[trigger] new.kinds@[r]) is Internal ==> old.kinds@[r] is Internal
                && new.kinds@[r]->first_child == old.kinds@[r]->first_child,
    ensures
        new.shape_ok(),
        new.ranks_ok(rank),
{
    assert forall|r: int| 0 <= r < new.kinds@.len() && (#[trigger] new.kinds@[r]) is Internal implies r
        < new.kinds@[r]->first_child && new.kinds@[r]->first_child + 3 < new.kinds@.len()
        && rank[r] < rank[new.kinds@[r]->first_child as int] by {
        assert(old.kinds@[r] is Internal);
    }
}

/// The nodes held by the leaves among `kinds`, in region order.
pub open spec fn leaf_nodes_of<F: Float>(kinds: Seq<RegionKind<F>>) -> Seq<usize>
    decreases kinds.len(),
{
    if kinds.len() == 0 {
        Seq::empty()
    } else {
        let rest = leaf_nodes_of(kinds.drop_last());
        match kinds.last() {
            RegionKind::Leaf { node } => rest.push(node),
            _ => rest,
        }
    }
}

/// `theta²`, for Barnes-Hut settings.
pub open spec fn squared_theta<F: Float>(settings: FA2Settings<F>) -> F {
    settings.repulsion_mode->theta.spec_powi(2)
}

/// The output of a node of mass `m` after the repulsion of a body of mass
/// `mass`, at `(x_dist, y_dist)` from it and at squared distance `distance`;
/// nothing changes when the two do not stand apart.
pub open spec fn body_push<F: Float>(
    coefficient: F,
    m: F,
    mass: F,
    x_dist: F,
    y_dist: F,
    distance: F,
    out: (F, F),
) -> (F, F) {
    if F::spec_zero().spec_lt(distance) {
        let factor = coefficient.spec_mul(m).spec_mul(mass).spec_div(distance);
        (out.0.spec_add(x_dist.spec_mul(factor)), out.1.spec_add(y_dist.spec_mul(factor)))
    } else {
        out
    }
}

/// Trees that agree on their leaves hold the same nodes.
proof fn lemma_leaves_same<F: Float>(old: BarnesHutTree<F>, new: BarnesHutTree<F>, bound: int)
    requires
        new.kinds@.len() == old.kinds@.len(),
        forall|r: int|
            0 <= r < new.kinds@.len() && (#[trigger] new.kinds@[r]) is Leaf ==> new.kinds@[r]
                == old.kinds@[r],
        forall|r: int|
            0 <= r < old.kinds@.len() && (#[trigger] old.kinds@[r]) is Leaf ==> new.kinds@[r]
                == old.kinds@[r],
    ensures
        old.leaves_below(bound) ==> new.leaves_below(bound),
        old.leaves_distinct() ==> new.leaves_distinct(),
{
}

/// Splitting a leaf moves its node into one of the new sub-regions.
proof fn lemma_leaves_split<F: Float>(
    old: BarnesHutTree<F>,
    new: BarnesHutTree<F>,
    r: int,
    node: usize,
    q: nat,
    bound: int,
)
    requires
        0 <= r < old.kinds@.len(),
        q < 4,
        old.kinds@[r] == (RegionKind::<F>::Leaf { node }),
        new.kinds@.len() == old.kinds@.len() + 4,
        new.kinds@[r] is Internal,
        forall|x: int|
            0 <= x < old.kinds@.len() && x != r ==> #[trigger] new.kinds@[x] == old.kinds@[x],
        forall|i: int|
            0 <= i < 4 ==> #[trigger] new.kinds@[old.kinds@.len() + i] == if i == q {
                RegionKind::<F>::Leaf { node }
            } else {
                RegionKind::<F>::Empty
            },
    ensures
        old.leaves_below(bound) ==> new.leaves_below(bound),
        old.leaves_distinct() ==> new.leaves_distinct(),
{
    let l = old.kinds@.len() as int;
    // Where the leaf at a new position came from.
    let from = |x: int| if x < l { x } else { r };
    assert forall|x: int| 0 <= x < l + 4 && (#[trigger] new.kinds@[x]) is Leaf implies 0 <= from(x) < l
        && old.kinds@[from(x)] is Leaf && new.kinds@[x]->node == old.kinds@[from(x)]->node
        && (x >= l ==> x == l + q) by {
        if x >= l {
            let i = x - l;
            assert(new.kinds@[l + i] == new.kinds@[x]);
        }
    }
    if old.leaves_below(bound) {
        assert forall|x: int| 0 <= x < new.kinds@.len() && (#[trigger] new.kinds@[x]) is Leaf implies new.kinds@[x]->node
            < bound by {
            assert(old.kinds@[from(x)] is Leaf);
        }
    }
    if old.leaves_distinct() {
        assert forall|r1: int, r2: int|
            0 <= r1 < new.kinds@.len() && 0 <= r2 < new.kinds@.len() && r1 != r2 && (
            #[trigger] new.kinds@[r1]) is Leaf && (#[trigger] new.kinds@[r2]) is Leaf implies new.kinds@[r1]->node
            != new.kinds@[r2]->node by {
            assert(old.kinds@[from(r1)] is Leaf);
            assert(old.kinds@[from(r2)] is Leaf);
            assert(from(r1) != from(r2));
        }
    }
}

/// Putting node `n` into an empty region, when every held node is below
/// `n`.
proof fn lemma_leaves_place<F: Float>(
    old: BarnesHutTree<F>,
    new: BarnesHutTree<F>,
    idx: int,
    n: usize,
    bound: int,
)
    requires
        0 <= idx < old.kinds@.len(),
        old.kinds@[idx] is Empty,
        new.kinds@ == old.kinds@.update(idx, RegionKind::<F>::Leaf { node: n }),
        n < bound,
    ensures
        old.leaves_below(bound) ==> new.leaves_below(bound),
        old.leaves_below(n as int) ==> new.leaves_below(n + 1),
        old.leaves_below(n as int) && old.leaves_distinct() ==> new.leaves_distinct(),
{
    assert forall|x: int| 0 <= x < new.kinds@.len() && x != idx && (#[trigger] new.kinds@[x]) is Leaf implies old.kinds@[x]
        is Leaf && new.kinds@[x] == old.kinds@[x] by {}
}

impl<F: Float> BarnesHutTree<F> {
    /// Split leaf region `r`, which holds `node` at `(node_x, node_y)` with
    /// mass `node_mass`, into four new sub-regions stored at the end: the
    /// one of `node_quadrant` holds `node`, the others are empty. Region `r`
    /// becomes internal, with `node` as its only mass.
    fn subdivide(
        &mut self,
        r: usize,
        node: usize,
        node_x: F,
        node_y: F,
        node_mass: F,
        node_quadrant: Quadrant,
        Ghost(rank): Ghost<Seq<int>>,
    ) -> (new_rank: Ghost<Seq<int>>)
        requires
            old(self).shape_ok(),
            old(self).ranks_ok(rank),
            r < old(self).kinds@.len(),
            old(self).kinds@[r as int] == (RegionKind::<F>::Leaf { node }),
            old(self).kinds@.len() + 4 <= usize::MAX,
        ensures
            final(self).shape_ok(),
            final(self).ranks_ok(new_rank@),
            final(self)@ == split_model(
                old(self)@,
                r as int,
                node,
                node_x,
                node_y,
                node_mass,
                node_quadrant,
            ),
            ({
                let l = old(self).kinds@.len() as int;
                let cx = old(self).center_xs@[r as int];
                let cy = old(self).center_ys@[r as int];
                let half = old(self).sizes@[r as int].spec_div(two::<F>());
                &&& final(self).kinds@.len() == l + 4
                &&& final(self).kinds@[r as int] == (RegionKind::Internal {
                    first_child: l as usize,
                    mass: node_mass,
                    mass_center_x: node_x,
                    mass_center_y: node_y,
                })
                &&& forall|x: int|
                    0 <= x < l && x != r ==> #[trigger] final(self).kinds@[x] == old(self).kinds@[x]
                &&& forall|i: int|
                    0 <= i < 4 ==> #[trigger] final(self).kinds@[l + i] == if i
                        == node_quadrant.position() {
                        RegionKind::<F>::Leaf { node }
                    } else {
                        RegionKind::<F>::Empty
                    }
                &&& final(self).center_xs@ == old(self).center_xs@ + seq![
                    cx.spec_sub(half),
                    cx.spec_sub(half),
                    cx.spec_add(half),
                    cx.spec_add(half),
                ]
                &&& final(self).center_ys@ == old(self).center_ys@ + seq![
                    cy.spec_sub(half),
                    cy.spec_add(half),
                    cy.spec_sub(half),
                    cy.spec_add(half),
                ]
                &&& final(self).sizes@ == old(self).sizes@ + seq![half, half, half, half]
                &&& final(self).next_siblings@ == old(self).next_siblings@ + seq![
                    Some((l + 1) as usize),
                    Some((l + 2) as usize),
                    Some((l + 3) as usize),
                    old(self).next_siblings@[r as int],
                ]
            }),
    {
        let ghost pre = *self;
        let l = self.kinds.len();
        let center_x = self.center_xs[r];
        let center_y = self.center_ys[r];
        let next_sibling = self.next_siblings[r];
        let half_size = self.sizes[r].div(F::from_usize(2));

        self.kinds.set(
            r,
            RegionKind::Internal {
                first_child: l,
                mass: node_mass,
                mass_center_x: node_x,
                mass_center_y: node_y,
            },
        );

        // Pushing regions: TopLeft, BottomLeft, TopRight, BottomRight
        self.push_region(
            if node_quadrant == Quadrant::TopLeft {
                RegionKind::Leaf { node }
            } else {
                RegionKind::Empty
            },
            center_x.sub(half_size),
            center_y.sub(half_size),
            half_size,
            Some(l + 1),
        );
        self.push_region(
            if node_quadrant == Quadrant::BottomLeft {
                RegionKind::Leaf { node }
            } else {
                RegionKind::Empty
            },
            center_x.sub(half_size),
            center_y.add(half_size),
            half_size,
            Some(l + 2),
        );
        self.push_region(
            if node_quadrant == Quadrant::TopRight {
                RegionKind::Leaf { node }
            } else {
                RegionKind::Empty
            },
            center_x.add(half_size),
            center_y.sub(half_size),
            half_size,
            Some(l + 3),
        );
        self.push_region(
            if node_quadrant == Quadrant::BottomRight {
                RegionKind::Leaf { node }
            } else {
                RegionKind::Empty
            },
            center_x.add(half_size),
            center_y.add(half_size),
            half_size,
            next_sibling,
        );

        let ghost new_rank = Seq::new((l + 4) as nat, |x: int| split_rank(rank, r as int, l as int, x));
        proof {
            let li = l as int;
            let ri = r as int;
            assert(self.center_xs@ =~= pre.center_xs@ + seq![
                center_x.spec_sub(half_size),
                center_x.spec_sub(half_size),
                center_x.spec_add(half_size),
                center_x.spec_add(half_size),
            ]);
            assert(self.center_ys@ =~= pre.center_ys@ + seq![
                center_y.spec_sub(half_size),
                center_y.spec_add(half_size),
                center_y.spec_sub(half_size),
                center_y.spec_add(half_size),
            ]);
            assert(self.sizes@ =~= pre.sizes@ + seq![half_size, half_size, half_size, half_size]);
            assert(self.next_siblings@ =~= pre.next_siblings@ + seq![
                Some((li + 1) as usize),
                Some((li + 2) as usize),
                Some((li + 3) as usize),
                next_sibling,
            ]);
            assert forall|x: int| 0 <= x < li && x != ri implies #[trigger] self.kinds@[x]
                == pre.kinds@[x] by {}
            assert forall|i: int| 0 <= i < 4 implies #[trigger] self.kinds@[li + i] == if i
                == node_quadrant.position() {
                RegionKind::<F>::Leaf { node }
            } else {
                RegionKind::<F>::Empty
            } by {}
            assert(self.kinds@ =~= split_model(
                pre@,
                ri,
                node,
                node_x,
                node_y,
                node_mass,
                node_quadrant,
            ).kinds);

            // Shape.
            assert forall|x: int|
                0 <= x < li + 4 && (#[trigger] self.kinds@[x]) is Internal implies x
                < self.kinds@[x]->first_child && self.kinds@[x]->first_child + 3 < li + 4
                && new_rank[x] < new_rank[self.kinds@[x]->first_child as int] by {
                if x != ri {
                    assert(x < li);
                    assert(pre.kinds@[x] is Internal);
                    let c = pre.kinds@[x]->first_child as int;
                    assert(rank[x] < rank[c]);
                }
            }
            assert forall|x: int|
                0 <= x < li + 4 && (#[trigger] self.next_siblings@[x]) is Some implies self.next_siblings@[x]->0
                < li + 4 && new_rank[x] < new_rank[self.next_siblings@[x]->0 as int] by {
                if x < li {
                    assert(self.next_siblings@[x] == pre.next_siblings@[x]);
                    let nx = pre.next_siblings@[x]->0 as int;
                    assert(rank[x] < rank[nx]);
                } else if x == li + 3 {
                    assert(self.next_siblings@[x] == pre.next_siblings@[ri]);
                    let nx = pre.next_siblings@[ri]->0 as int;
                    assert(rank[ri] < rank[nx]);
                }
            }
            assert forall|x: int| 0 <= x < li + 4 implies 0 <= #[trigger] new_rank[x] < li + 4 by {
                if x < li {
                    assert(0 <= rank[x] < li);
                }
            }
            assert(self.ranks_ok(new_rank));
        }
        Ghost(new_rank)
    }
}

/// The output of node `n` after a depth-first walk through the tree `t`
/// that starts at region `r` and takes at most `fuel` steps. An internal
/// region that looks small enough from the node (`4 * size² / distance²
/// < θ²`) repulses it as a single body at its center of mass and is not
/// entered; otherwise the walk goes down into it. A leaf repulses the
/// node unless it holds the node itself. After a region, the walk goes on
/// to its next sibling, and stops where there is none.
pub open spec fn repulsion_walk<F: Float>(
    t: TreeModel<F>,
    settings: FA2Settings<F>,
    n: int,
    xs: Seq<F>,
    ys: Seq<F>,
    ms: Seq<F>,
    r: int,
    out: (F, F),
    fuel: nat,
) -> (F, F)
    decreases fuel,
{
    if fuel == 0 || !(0 <= r < t.kinds.len()) {
        out
    } else {
        let x = xs[n];
        let y = ys[n];
        let m = ms[n];
        let coefficient = settings.scaling_ratio;
        let fuel = (fuel - 1) as nat;
        let next = t.next_siblings[r];
        match t.kinds[r] {
            RegionKind::Internal { first_child, mass, mass_center_x, mass_center_y } => {
                let x_dist = x.spec_sub(mass_center_x);
                let y_dist = y.spec_sub(mass_center_y);
                let distance = x_dist.spec_mul(x_dist).spec_add(y_dist.spec_mul(y_dist));
                let size = t.sizes[r];
                if F::spec_from_usize(4).spec_mul(size).spec_mul(size).spec_div(distance).spec_lt(
                    squared_theta(settings),
                ) {
                    let out = body_push(coefficient, m, mass, x_dist, y_dist, distance, out);
                    match next {
                        Some(s) => repulsion_walk(t, settings, n, xs, ys, ms, s as int, out, fuel),
                        None => out,
                    }
                } else {
                    repulsion_walk(t, settings, n, xs, ys, ms, first_child as int, out, fuel)
                }
            },
            RegionKind::Leaf { node } => {
                let out = if node != n {
                    let x_dist = x.spec_sub(xs[node as int]);
                    let y_dist = y.spec_sub(ys[node as int]);
                    let distance = x_dist.spec_mul(x_dist).spec_add(y_dist.spec_mul(y_dist));
                    body_push(coefficient, m, ms[node as int], x_dist, y_dist, distance, out)
                } else {
                    out
                };
                match next {
                    Some(s) => repulsion_walk(t, settings, n, xs, ys, ms, s as int, out, fuel),
                    None => out,
                }
            },
            RegionKind::Empty => match next {
                Some(s) => repulsion_walk(t, settings, n, xs, ys, ms, s as int, out, fuel),
                None => out,
            },
        }
    }
}

/// A region that the walk takes as a single body pushes as its mass placed
/// at its center of mass, and whether it is taken as one depends on that
/// center and on its size: the geometric centers of the regions play no
/// part in the repulsion. Moving every region's center elsewhere leaves
/// every walk, and so every node's repulsion, unchanged.
pub proof fn lemma_walk_ignores_centers<F: Float>(
    t: TreeModel<F>,
    center_xs: Seq<F>,
    center_ys: Seq<F>,
    settings: FA2Settings<F>,
    n: int,
    xs: Seq<F>,
    ys: Seq<F>,
    ms: Seq<F>,
    fuel: nat,
)
    ensures
        forall|r: int, out: (F, F)|
            #[trigger] repulsion_walk(t, settings, n, xs, ys, ms, r, out, fuel) == repulsion_walk(
                TreeModel { center_xs, center_ys, ..t },
                settings,
                n,
                xs,
                ys,
                ms,
                r,
                out,
                fuel,
            ),
    decreases fuel,
{
    let t2 = TreeModel { center_xs, center_ys, ..t };
    if fuel > 0 {
        let f = (fuel - 1) as nat;
        lemma_walk_ignores_centers(t, center_xs, center_ys, settings, n, xs, ys, ms, f);
        assert forall|r: int, out: (F, F)|
            #[trigger] repulsion_walk(t, settings, n, xs, ys, ms, r, out, fuel) == repulsion_walk(
                t2,
                settings,
                n,
                xs,
                ys,
                ms,
                r,
                out,
                fuel,
            ) by {
            if 0 <= r < t.kinds.len() {
                let x = xs[n];
                let y = ys[n];
                let m = ms[n];
                let coefficient = settings.scaling_ratio;
                let next = t.next_siblings[r];
                match t.kinds[r] {
                    RegionKind::Internal { first_child, mass, mass_center_x, mass_center_y } => {
                        let x_dist = x.spec_sub(mass_center_x);
                        let y_dist = y.spec_sub(mass_center_y);
                        let distance = x_dist.spec_mul(x_dist).spec_add(y_dist.spec_mul(y_dist));
                        let o = body_push(coefficient, m, mass, x_dist, y_dist, distance, out);
                        assert(repulsion_walk(t, settings, n, xs, ys, ms, first_child as int, out, f)
                            == repulsion_walk(t2, settings, n, xs, ys, ms, first_child as int, out, f));
                        match next {
                            Some(s) => {
                                assert(repulsion_walk(t, settings, n, xs, ys, ms, s as int, o, f)
                                    == repulsion_walk(t2, settings, n, xs, ys, ms, s as int, o, f));
                            },
                            None => {},
                        }
                    },
                    RegionKind::Leaf { node } => {
                        let o = if node != n {
                            let x_dist = x.spec_sub(xs[node as int]);
                            let y_dist = y.spec_sub(ys[node as int]);
                            let distance = x_dist.spec_mul(x_dist).spec_add(y_dist.spec_mul(y_dist));
                            body_push(coefficient, m, ms[node as int], x_dist, y_dist, distance, out)
                        } else {
                            out
                        };
                        match next {
                            Some(s) => {
                                assert(repulsion_walk(t, settings, n, xs, ys, ms, s as int, o, f)
                                    == repulsion_walk(t2, settings, n, xs, ys, ms, s as int, o, f));
                            },
                            None => {},
                        }
                    },
                    RegionKind::Empty => {
                        match next {
                            Some(s) => {
                                assert(repulsion_walk(t, settings, n, xs, ys, ms, s as int, out, f)
                                    == repulsion_walk(t2, settings, n, xs, ys, ms, s as int, out, f));
                            },
                            None => {},
                        }
                    },
                }
            }
        }
    }
}

/// A node does not push itself: the leaf that holds node `n` adds nothing
/// to its repulsion, so emptying that leaf leaves every walk for `n`
/// unchanged.
pub proof fn lemma_own_leaf_pushes_nothing<F: Float>(
    t: TreeModel<F>,
    own: int,
    settings: FA2Settings<F>,
    n: int,
    xs: Seq<F>,
    ys: Seq<F>,
    ms: Seq<F>,
    fuel: nat,
)
    requires
        0 <= own < t.kinds.len(),
        0 <= n <= usize::MAX,
        t.kinds[own] == (RegionKind::<F>::Leaf { node: n as usize }),
    ensures
        forall|r: int, out: (F, F)|
            #[trigger] repulsion_walk(t, settings, n, xs, ys, ms, r, out, fuel) == repulsion_walk(
                TreeModel { kinds: t.kinds.update(own, RegionKind::Empty), ..t },
                settings,
                n,
                xs,
                ys,
                ms,
                r,
                out,
                fuel,
            ),
    decreases fuel,
{
    let t2 = TreeModel { kinds: t.kinds.update(own, RegionKind::Empty), ..t };
    if fuel > 0 {
        let f = (fuel - 1) as nat;
        lemma_own_leaf_pushes_nothing(t, own, settings, n, xs, ys, ms, f);
        assert forall|r: int, out: (F, F)|
            #[trigger] repulsion_walk(t, settings, n, xs, ys, ms, r, out, fuel) == repulsion_walk(
                t2,
                settings,
                n,
                xs,
                ys,
                ms,
                r,
                out,
                fuel,
            ) by {
            if 0 <= r < t.kinds.len() {
                let x = xs[n];
                let y = ys[n];
                let m = ms[n];
                let coefficient = settings.scaling_ratio;
                let next = t.next_siblings[r];
                if r != own {
                    assert(t2.kinds[r] == t.kinds[r]);
                }
                match t.kinds[r] {
                    RegionKind::Internal { first_child, mass, mass_center_x, mass_center_y } => {
                        let x_dist = x.spec_sub(mass_center_x);
                        let y_dist = y.spec_sub(mass_center_y);
                        let distance = x_dist.spec_mul(x_dist).spec_add(y_dist.spec_mul(y_dist));
                        let o = body_push(coefficient, m, mass, x_dist, y_dist, distance, out);
                        assert(repulsion_walk(t, settings, n, xs, ys, ms, first_child as int, out, f)
                            == repulsion_walk(t2, settings, n, xs, ys, ms, first_child as int, out, f));
                        match next {
                            Some(s) => {
                                assert(repulsion_walk(t, settings, n, xs, ys, ms, s as int, o, f)
                                    == repulsion_walk(t2, settings, n, xs, ys, ms, s as int, o, f));
                            },
                            None => {},
                        }
                    },
                    RegionKind::Leaf { node } => {
                        let o = if node != n {
                            let x_dist = x.spec_sub(xs[node as int]);
                            let y_dist = y.spec_sub(ys[node as int]);
                            let distance = x_dist.spec_mul(x_dist).spec_add(y_dist.spec_mul(y_dist));
                            body_push(coefficient, m, ms[node as int], x_dist, y_dist, distance, out)
                        } else {
                            out
                        };
                        match next {
                            Some(s) => {
                                assert(repulsion_walk(t, settings, n, xs, ys, ms, s as int, o, f)
                                    == repulsion_walk(t2, settings, n, xs, ys, ms, s as int, o, f));
                                assert(repulsion_walk(t, settings, n, xs, ys, ms, s as int, out, f)
                                    == repulsion_walk(t2, settings, n, xs, ys, ms, s as int, out, f));
                            },
                            None => {},
                        }
                    },
                    RegionKind::Empty => {
                        match next {
                            Some(s) => {
                                assert(repulsion_walk(t, settings, n, xs, ys, ms, s as int, out, f)
                                    == repulsion_walk(t2, settings, n, xs, ys, ms, s as int, out, f));
                            },
                            None => {},
                        }
                    },
                }
            }
        }
    }
}

impl<F: Float> BarnesHutTree<F> {
    /// The number of regions.
    pub open spec fn spec_len(&self) -> int {
        self@.kinds.len() as int
    }

    /// The vectors have one entry per region, sub-regions come after their
    /// parent and exist, and siblings exist.
    pub open spec fn shape_ok(&self) -> bool {
        let len = self@.kinds.len();
        &&& self@.center_xs.len() == len
        &&& self@.center_ys.len() == len
        &&& self@.sizes.len() == len
        &&& self@.next_siblings.len() == len
        &&& forall|r: int|
            0 <= r < len && (#[trigger] self@.kinds[r]) is Internal ==> r
                < self@.kinds[r]->first_child && self@.kinds[r]->first_child + 3 < len
        &&& forall|r: int|
            0 <= r < len && (#[trigger] self@.next_siblings[r]) is Some ==> self@.next_siblings[r]->0
                < len
    }

    /// `rank` orders the regions so that going down to the first
    /// sub-region, or over to the next sibling, always moves forward.
    pub open spec fn ranks_ok(&self, rank: Seq<int>) -> bool {
        let len = self@.kinds.len();
        &&& rank.len() == len
        &&& forall|r: int| 0 <= r < len ==> 0 <= #[trigger] rank[r] < len
        &&& forall|r: int|
            0 <= r < len && (#[trigger] self@.kinds[r]) is Internal ==> rank[r] < rank[self@.kinds[r]->first_child as int]
        &&& forall|r: int|
            0 <= r < len && (#[trigger] self@.next_siblings[r]) is Some ==> rank[r]
                < rank[self@.next_siblings[r]->0 as int]
    }

    /// The tree is well formed, so that every walk through it ends.
    pub open spec fn wf(&self) -> bool {
        &&& self.shape_ok()
        &&& exists|rank: Seq<int>| self.ranks_ok(rank)
    }

    /// Every leaf holds a node below `n`.
    pub open spec fn leaves_below(&self, n: int) -> bool {
        forall|r: int|
            0 <= r < self@.kinds.len() && (#[trigger] self@.kinds[r]) is Leaf ==> self@.kinds[r]->node
                < n
    }

    /// No node is held by two leaves.
    pub open spec fn leaves_distinct(&self) -> bool {
        forall|r1: int, r2: int|
            0 <= r1 < self@.kinds.len() && 0 <= r2 < self@.kinds.len() && r1 != r2 && (
            #[trigger] self@.kinds[r1]) is Leaf && (#[trigger] self@.kinds[r2]) is Leaf ==> self@.kinds[r1]->node
                != self@.kinds[r2]->node
    }

    /// Whether node `n` is held by a leaf.
    pub open spec fn holds(&self, n: int) -> bool {
        held(self@.kinds, n)
    }

    /// Create an empty tree, with room for the given number of regions.
    pub fn with_capacity(capacity: usize) -> (t: Self)
        ensures
            t.wf(),
            t.spec_len() == 0,
    {
        let t = Self {
            kinds: Vec::with_capacity(capacity),
            center_xs: Vec::with_capacity(capacity),
            center_ys: Vec::with_capacity(capacity),
            sizes: Vec::with_capacity(capacity),
            next_siblings: Vec::with_capacity(capacity),
        };
        assert(t.ranks_ok(Seq::empty()));
        t
    }

    fn push_region(
        &mut self,
        kind: RegionKind<F>,
        center_x: F,
        center_y: F,
        size: F,
        next_sibling: Option<usize>,
    )
        ensures
            final(self).kinds@ == old(self).kinds@.push(kind),
            final(self).center_xs@ == old(self).center_xs@.push(center_x),
            final(self).center_ys@ == old(self).center_ys@.push(center_y),
            final(self).sizes@ == old(self).sizes@.push(size),
            final(self).next_siblings@ == old(self).next_siblings@.push(next_sibling),
    {
        self.kinds.push(kind);
        self.center_xs.push(center_x);
        self.center_ys.push(center_y);
        self.sizes.push(size);
        self.next_siblings.push(next_sibling);
    }

    fn clear(&mut self)
        ensures
            final(self).kinds@.len() == 0,
            final(self).center_xs@.len() == 0,
            final(self).center_ys@.len() == 0,
            final(self).sizes@.len() == 0,
            final(self).next_siblings@.len() == 0,
    {
        self.kinds.clear();
        self.center_xs.clear();
        self.center_ys.clear();
        self.sizes.clear();
        self.next_siblings.clear();
    }

    /// Insert the nodes into the tree, in order, starting from a tree made
    /// of its root alone. A node is sent down the regions that hold it, each
    /// internal region taking its mass into account, until it reaches an
    /// empty region, which it then fills, or a leaf, which is split (at most
    /// [`SUBDIVISION_ATTEMPTS`] times in a row, after which the node is left
    /// out).
    pub fn read(&mut self, xs: &[F], ys: &[F], ms: &[F])
        requires
            old(self).wf(),
            old(self)@.kinds.len() == 1,
            old(self).leaves_below(xs@.len() as int),
            ys@.len() >= xs@.len(),
            ms@.len() >= xs@.len(),
            12 * xs@.len() + 1 <= usize::MAX,
        ensures
            final(self).wf(),
            final(self)@ == read_model(old(self)@, xs@, ys@, ms@, xs@.len()),
            1 <= final(self)@.kinds.len() <= 1 + 12 * xs@.len(),
            final(self).leaves_below(xs@.len() as int),
            old(self)@.kinds[0] is Empty ==> final(self).leaves_distinct(),
            regular(final(self)@),
            forall|k: int| #[trigger] old(self).holds(k) ==> final(self).holds(k),
            forall|k: int|
                0 <= k < xs@.len() && #[trigger] kept(old(self)@, xs@, ys@, ms@, k) ==> final(self).holds(k),
            forall|k: int|
                0 <= k < xs@.len() ==> final(self).holds(k) || #[trigger] left_out(old(self)@, xs@, ys@, ms@, k),
            old(self)@.kinds[0] is Empty && xs@.len() > 0 ==> final(self).holds(0),
    {
        let mut l: usize = 1;
        let ghost t0 = self@;
        let ghost mut rank: Seq<int> = choose|rank: Seq<int>| self.ranks_ok(rank);
        let ghost root_empty = self.kinds@[0] is Empty;
        proof {
            if root_empty {
                assert(self.leaves_below(0));
            }
            assert(regular(self@));
        }

        let mut n: usize = 0;
        while n < xs.len()
            invariant
                self.shape_ok(),
                self.ranks_ok(rank),
                l == self.kinds@.len(),
                1 <= l <= 1 + 12 * n,
                n <= xs@.len(),
                ys@.len() >= xs@.len(),
                ms@.len() >= xs@.len(),
                12 * xs@.len() + 1 <= usize::MAX,
                self.leaves_below(xs@.len() as int),
                root_empty ==> self.leaves_below(n as int) && self.leaves_distinct(),
                self@ == read_model(t0, xs@, ys@, ms@, n as nat),
                root_empty == (t0.kinds[0] is Empty),
                t0.kinds.len() == 1,
                regular(self@),
                forall|k: int| #[trigger] held(t0.kinds, k) ==> held(self@.kinds, k),
                root_empty && n > 0 ==> held(self@.kinds, 0),
                forall|k: int| 0 <= k < n && #[trigger] kept(t0, xs@, ys@, ms@, k) ==> held(self@.kinds, k),
                forall|k: int|
                    0 <= k < n ==> kept(t0, xs@, ys@, ms@, k) || #[trigger] left_out(t0, xs@, ys@, ms@, k),
            decreases xs@.len() - n,
        {
            let mut region_index: usize = 0;
            let mut subdivision_attempts: usize = SUBDIVISION_ATTEMPTS;
            let ghost start = self@;
            let ghost target = read_model(t0, xs@, ys@, ms@, (n + 1) as nat);
            let ghost mut fuel: nat = (self@.kinds.len() + 15) as nat;

            let x = xs[n];
            let y = ys[n];
            let m = ms[n];

            loop
                invariant_except_break
                    1 <= subdivision_attempts,
                    l <= 1 + 12 * n + 4 * (3 - subdivision_attempts),
                    fuel >= (l - region_index) + 5 * subdivision_attempts,
                    insert_from(
                        self@,
                        xs@,
                        ys@,
                        ms@,
                        n as int,
                        region_index as int,
                        subdivision_attempts as nat,
                        fuel,
                    ) == target,
                    region_index < l,
                    root_empty ==> self.leaves_below(n as int),
                    root_empty && n == 0 ==> self@.kinds.len() == 1 && self@.kinds[0] is Empty,
                invariant
                    self.shape_ok(),
                    self.ranks_ok(rank),
                    l == self.kinds@.len(),
                    n < xs@.len(),
                    subdivision_attempts <= 3,
                    1 <= l <= 1 + 12 * (n + 1),
                    ys@.len() >= xs@.len(),
                    ms@.len() >= xs@.len(),
                    12 * xs@.len() + 1 <= usize::MAX,
                    x == xs@[n as int],
                    y == ys@[n as int],
                    m == ms@[n as int],
                    self.leaves_below(xs@.len() as int),
                    root_empty ==> self.leaves_below(n + 1) && self.leaves_distinct(),
                    regular(self@),
                    forall|k: int| #[trigger] held(start.kinds, k) ==> held(self@.kinds, k),
                    root_empty && n > 0 ==> held(self@.kinds, 0),
                ensures
                    self@ == target,
                    root_empty ==> held(self@.kinds, 0),
                decreases subdivision_attempts, l - region_index,
            {
                let kind = self.kinds[region_index];
                match kind {
                    RegionKind::Internal {
                        first_child: first_child_index,
                        mass,
                        mass_center_x,
                        mass_center_y,
                    } => {
                        // There are sub-regions, we iterate to delve until we find a leaf
                        let center_x = self.center_xs[region_index];
                        let center_y = self.center_ys[region_index];

                        // Finding the quadrant of n
                        let quadrant = quadrant(x, y, center_x, center_y);

                        // Update mass
                        let new_center_x = mass_center_x.mul(mass).add(x.mul(m)).div(mass.add(m));
                        let new_center_y = mass_center_y.mul(mass).add(y.mul(m)).div(mass.add(m));
                        let ghost pre = *self;
                        self.kinds.set(
                            region_index,
                            RegionKind::Internal {
                                first_child: first_child_index,
                                mass: mass.add(m),
                                mass_center_x: new_center_x,
                                mass_center_y: new_center_y,
                            },
                        );
                        proof {
                            lemma_kinds_stable(pre, *self, rank);
                            lemma_leaves_same(pre, *self, xs@.len() as int);
                            lemma_leaves_same(pre, *self, n + 1);
                            lemma_leaves_same(pre, *self, n as int);
                            assert(self@ == TreeModel { kinds: pre@.kinds.update(region_index as int, self.kinds@[region_index as int]), ..pre@ });
                            lemma_update_regular(pre@, region_index as int, self.kinds@[region_index as int]);
                            fuel = (fuel - 1) as nat;
                        }

                        // Continue on relevant quadrant
                        region_index = quadrant.offset(first_child_index);
                    },
                    RegionKind::Leaf { node: region_node } => {
                        let center_x = self.center_xs[region_index];
                        let center_y = self.center_ys[region_index];

                        let old_node_x = xs[region_node];
                        let old_node_y = ys[region_node];
                        let old_node_mass = ms[region_node];

                        let old_node_quadrant = quadrant(old_node_x, old_node_y, center_x, center_y);
                        let new_node_quadrant = quadrant(x, y, center_x, center_y);

                        let ghost pre = *self;
                        let new_rank = self.subdivide(
                            region_index,
                            region_node,
                            old_node_x,
                            old_node_y,
                            old_node_mass,
                            old_node_quadrant,
                            Ghost(rank),
                        );
                        proof {
                            rank = new_rank@;
                            lemma_split_regular(
                                pre@,
                                region_index as int,
                                region_node,
                                old_node_x,
                                old_node_y,
                                old_node_mass,
                                old_node_quadrant,
                            );
                            lemma_leaves_split(
                                pre,
                                *self,
                                region_index as int,
                                region_node,
                                old_node_quadrant.position(),
                                xs@.len() as int,
                            );
                            lemma_leaves_split(
                                pre,
                                *self,
                                region_index as int,
                                region_node,
                                old_node_quadrant.position(),
                                n + 1,
                            );
                            lemma_leaves_split(
                                pre,
                                *self,
                                region_index as int,
                                region_node,
                                old_node_quadrant.position(),
                                n as int,
                            );
                        }

                        l += 4;
                        proof {
                            fuel = (fuel - 1) as nat;
                        }

                        if old_node_quadrant == new_node_quadrant {
                            subdivision_attempts -= 1;

                            if subdivision_attempts > 0 {
                                region_index = old_node_quadrant.offset(l - 4);
                                continue;
                            } else {
                                break;
                            }
                        }
                        let slot = new_node_quadrant.offset(l - 4);
                        let ghost pre = *self;
                        proof {
                            let i = new_node_quadrant.position() as int;
                            assert(self.kinds@[(l - 4) + i] == RegionKind::<F>::Empty);
                        }
                        self.kinds.set(slot, RegionKind::Leaf { node: n });
                        proof {
                            assert(self@ == TreeModel { kinds: pre@.kinds.update(slot as int, RegionKind::Leaf { node: n }), ..pre@ });
                            lemma_update_regular(pre@, slot as int, RegionKind::Leaf { node: n });
                            lemma_kinds_stable(pre, *self, rank);
                            lemma_leaves_place(pre, *self, slot as int, n, xs@.len() as int);
                        }
                        break;
                    },
                    RegionKind::Empty => {
                        // There is no node in this region, we add it
                        let ghost pre = *self;
                        self.kinds.set(region_index, RegionKind::Leaf { node: n });
                        proof {
                            assert(self@ == TreeModel { kinds: pre@.kinds.update(region_index as int, RegionKind::Leaf { node: n }), ..pre@ });
                            lemma_update_regular(pre@, region_index as int, RegionKind::Leaf { node: n });
                            assert(self@.kinds[region_index as int] == (RegionKind::<F>::Leaf { node: n }));
                            lemma_kinds_stable(pre, *self, rank);
                            lemma_leaves_place(pre, *self, region_index as int, n, xs@.len() as int);
                        }
                        break;
                    },
                }
            }
            proof {
                lemma_placed_or_crowded(
                    start,
                    xs@,
                    ys@,
                    ms@,
                    n as int,
                    0,
                    SUBDIVISION_ATTEMPTS as nat,
                    (start.kinds.len() + 15) as nat,
                );
                if kept(t0, xs@, ys@, ms@, n as int) {
                    lemma_placed_held(
                        start,
                        xs@,
                        ys@,
                        ms@,
                        n as int,
                        0,
                        SUBDIVISION_ATTEMPTS as nat,
                        (start.kinds.len() + 15) as nat,
                    );
                }
                assert forall|k: int| #[trigger] held(t0.kinds, k) implies held(self@.kinds, k) by {
                    assert(held(start.kinds, k));
                }
                assert forall|k: int| 0 <= k < n + 1 && #[trigger] kept(t0, xs@, ys@, ms@, k) implies held(
                    self@.kinds,
                    k,
                ) by {
                    if k < n {
                        assert(held(start.kinds, k));
                    }
                }
            }
            n += 1;
        }
    }

    /// The output of node `n` after the repulsion of the whole tree.
    pub open spec fn node_repulsion(
        &self,
        settings: FA2Settings<F>,
        n: int,
        xs: Seq<F>,
        ys: Seq<F>,
        ms: Seq<F>,
        out: (F, F),
    ) -> (F, F) {
        repulsion_walk(self@, settings, n, xs, ys, ms, 0, out, self@.kinds.len() as nat)
    }

    /// One more step of fuel changes nothing to a walk that already has
    /// enough to reach its end.
    proof fn lemma_walk_fuel_step(
        &self,
        rank: Seq<int>,
        settings: FA2Settings<F>,
        n: int,
        xs: Seq<F>,
        ys: Seq<F>,
        ms: Seq<F>,
        r: int,
        out: (F, F),
        fuel: nat,
    )
        requires
            self.shape_ok(),
            self.ranks_ok(rank),
            0 <= r < self.kinds@.len(),
            fuel >= self.kinds@.len() - rank[r],
        ensures
            repulsion_walk(self@, settings, n, xs, ys, ms, r, out, fuel) == repulsion_walk(self@,
                settings,
                n,
                xs,
                ys,
                ms,
                r,
                out,
                fuel + 1,
            ),
        decreases fuel,
    {
        let len = self.kinds@.len();
        assert(0 <= rank[r] < len);
        let next = self.next_siblings@[r];
        let x = xs[n];
        let y = ys[n];
        let m = ms[n];
        let f = (fuel - 1) as nat;
        match next {
            Some(s) => {
                assert(rank[r] < rank[s as int]);
            },
            None => {},
        }
        match self.kinds@[r] {
            RegionKind::Internal { first_child, mass, mass_center_x, mass_center_y } => {
                assert(rank[r] < rank[first_child as int]);
                let x_dist = x.spec_sub(mass_center_x);
                let y_dist = y.spec_sub(mass_center_y);
                let distance = x_dist.spec_mul(x_dist).spec_add(y_dist.spec_mul(y_dist));
                let size = self.sizes@[r];
                if F::spec_from_usize(4).spec_mul(size).spec_mul(size).spec_div(distance).spec_lt(
                    squared_theta(settings),
                ) {
                    let out = body_push(settings.scaling_ratio, m, mass, x_dist, y_dist, distance, out);
                    if let Some(s) = next {
                        self.lemma_walk_fuel_step(rank, settings, n, xs, ys, ms, s as int, out, f);
                    }
                } else {
                    self.lemma_walk_fuel_step(
                        rank,
                        settings,
                        n,
                        xs,
                        ys,
                        ms,
                        first_child as int,
                        out,
                        f,
                    );
                }
            },
            RegionKind::Leaf { node } => {
                let out = if node != n {
                    let x_dist = x.spec_sub(xs[node as int]);
                    let y_dist = y.spec_sub(ys[node as int]);
                    let distance = x_dist.spec_mul(x_dist).spec_add(y_dist.spec_mul(y_dist));
                    body_push(settings.scaling_ratio, m, ms[node as int], x_dist, y_dist, distance, out)
                } else {
                    out
                };
                if let Some(s) = next {
                    self.lemma_walk_fuel_step(rank, settings, n, xs, ys, ms, s as int, out, f);
                }
            },
            RegionKind::Empty => {
                if let Some(s) = next {
                    self.lemma_walk_fuel_step(rank, settings, n, xs, ys, ms, s as int, out, f);
                }
            },
        }
    }

    /// Every walk through a well-formed tree ends within as many steps as
    /// the tree has regions: allowing it more steps changes nothing.
    pub proof fn lemma_walk_ends(
        &self,
        settings: FA2Settings<F>,
        n: int,
        xs: Seq<F>,
        ys: Seq<F>,
        ms: Seq<F>,
        out: (F, F),
        extra: nat,
    )
        requires
            self.wf(),
            self@.kinds.len() >= 1,
        ensures
            repulsion_walk(self@, settings, n, xs, ys, ms, 0, out, (self@.kinds.len() + extra) as nat)
                == self.node_repulsion(settings, n, xs, ys, ms, out),
        decreases extra,
    {
        if extra > 0 {
            let rank = choose|rank: Seq<int>| self.ranks_ok(rank);
            let len = self.kinds@.len();
            self.lemma_walk_ends(settings, n, xs, ys, ms, out, (extra - 1) as nat);
            assert(0 <= rank[0] < len);
            self.lemma_walk_fuel_step(
                rank,
                settings,
                n,
                xs,
                ys,
                ms,
                0,
                out,
                (len + extra - 1) as nat,
            );
        }
    }

    /// Apply to node `n` the repulsion of the nodes in the tree, far away
    /// groups of nodes being approximated by their center of mass.
    pub fn apply_repulsion_for_node(
        &self,
        settings: &FA2Settings<F>,
        n: usize,
        xs: &[F],
        ys: &[F],
        ms: &[F],
        out_x: &mut F,
        out_y: &mut F,
    )
        requires
            self.wf(),
            self@.kinds.len() >= 1,
            self.leaves_below(xs@.len() as int),
            n < xs@.len(),
            ys@.len() >= xs@.len(),
            ms@.len() >= xs@.len(),
            settings.repulsion_mode is BarnesHut,
        ensures
            (*final(out_x), *final(out_y)) == self.node_repulsion(
                *settings,
                n as int,
                xs@,
                ys@,
                ms@,
                (*old(out_x), *old(out_y)),
            ),
    {
        let coefficient = settings.scaling_ratio;
        let theta_squared = settings.unwrap_barnes_hut_theta().powi(2);
        let four = F::from_usize(4);

        let mut region_index: usize = 0;

        let x = xs[n];
        let y = ys[n];
        let m = ms[n];

        let ghost len = self.kinds@.len() as int;
        let ghost rank = choose|rank: Seq<int>| self.ranks_ok(rank);
        let ghost mut fuel: nat = len as nat;
        let ghost target = self.node_repulsion(*settings, n as int, xs@, ys@, ms@, (*out_x, *out_y));

        loop
            invariant_except_break
                region_index < len,
                fuel >= len - rank[region_index as int],
                repulsion_walk(self@,
                    *settings,
                    n as int,
                    xs@,
                    ys@,
                    ms@,
                    region_index as int,
                    (*out_x, *out_y),
                    fuel,
                ) == target,
            invariant
                self.wf(),
                self.ranks_ok(rank),
                len == self.kinds@.len(),
                self.leaves_below(xs@.len() as int),
                n < xs@.len(),
                ys@.len() >= xs@.len(),
                ms@.len() >= xs@.len(),
                x == xs@[n as int],
                y == ys@[n as int],
                m == ms@[n as int],
                coefficient == settings.scaling_ratio,
                theta_squared == squared_theta(*settings),
                four == F::spec_from_usize(4),
            ensures
                (*out_x, *out_y) == target,
            decreases len - rank[region_index as int],
        {
            let next = self.next_siblings[region_index];
            match self.kinds[region_index] {
                RegionKind::Internal {
                    first_child: first_child_index,
                    mass,
                    mass_center_x,
                    mass_center_y,
                } => {
                    let x_dist = x.sub(mass_center_x);
                    let y_dist = y.sub(mass_center_y);

                    let distance = x_dist.mul(x_dist).add(y_dist.mul(y_dist));

                    let size = self.sizes[region_index];

                    if four.mul(size).mul(size).div(distance).lt(theta_squared) {
                        // We treat the region as a single body for repulsion
                        if F::zero().lt(distance) {
                            let factor = coefficient.mul(m).mul(mass).div(distance);

                            *out_x = (*out_x).add(x_dist.mul(factor));
                            *out_y = (*out_y).add(y_dist.mul(factor));
                        }
                        // Moving to next sibling

                        match next {
                            Some(next_sibling_index) => {
                                region_index = next_sibling_index;
                                proof {
                                    fuel = (fuel - 1) as nat;
                                }
                            },
                            None => {
                                break ;
                            },
                        }
                    } else {
                        // This region is too close, we delve
                        region_index = first_child_index;
                        proof {
                            fuel = (fuel - 1) as nat;
                        }
                    }
                },
                RegionKind::Leaf { node: region_node } => {
                    if region_node != n {
                        let region_node_x = xs[region_node];
                        let region_node_y = ys[region_node];
                        let region_node_mass = ms[region_node];

                        let x_dist = x.sub(region_node_x);
                        let y_dist = y.sub(region_node_y);

                        let distance = x_dist.mul(x_dist).add(y_dist.mul(y_dist));

                        if F::zero().lt(distance) {
                            let factor = coefficient.mul(m).mul(region_node_mass).div(distance);

                            *out_x = (*out_x).add(x_dist.mul(factor));
                            *out_y = (*out_y).add(y_dist.mul(factor));
                        }
                    }
                    // Moving to next sibling

                    match next {
                        Some(next_sibling_index) => {
                            region_index = next_sibling_index;
                            proof {
                                fuel = (fuel - 1) as nat;
                            }
                        },
                        None => {
                            break ;
                        },
                    }
                },
                RegionKind::Empty => {
                    match next {
                        Some(next_sibling_index) => {
                            region_index = next_sibling_index;
                            proof {
                                fuel = (fuel - 1) as nat;
                            }
                        },
                        None => {
                            break ;
                        },
                    }
                },
            }
        }
    }

    /// Apply to every node the repulsion of the nodes in the tree, node `n`
    /// as [`Self::apply_repulsion_for_node`] does.
    pub fn apply_repulsion(
        &self,
        settings: &FA2Settings<F>,
        xs: &[F],
        ys: &[F],
        ms: &[F],
        out_xs: &mut [F],
        out_ys: &mut [F],
    )
        requires
            xs@.len() > 0 ==> {
                &&& self.wf()
                &&& self@.kinds.len() >= 1
                &&& self.leaves_below(xs@.len() as int)
                &&& settings.repulsion_mode is BarnesHut
            },
            ys@.len() >= xs@.len(),
            ms@.len() >= xs@.len(),
            old(out_xs)@.len() >= xs@.len(),
            old(out_ys)@.len() >= xs@.len(),
        ensures
            final(out_xs)@.len() == old(out_xs)@.len(),
            final(out_ys)@.len() == old(out_ys)@.len(),
            forall|i: int|
                0 <= i < xs@.len() ==> (#[trigger] final(out_xs)@[i], final(out_ys)@[i])
                    == self.node_repulsion(*settings, i, xs@, ys@, ms@, (old(out_xs)@[i], old(out_ys)@[i])),
            forall|i: int|
                xs@.len() <= i < old(out_xs)@.len() ==> #[trigger] final(out_xs)@[i] == old(out_xs)@[i],
            forall|i: int|
                xs@.len() <= i < old(out_ys)@.len() ==> #[trigger] final(out_ys)@[i] == old(out_ys)@[i],
    {
        let ghost out0 = (out_xs@, out_ys@);
        let mut n: usize = 0;
        while n < xs.len()
            invariant
                xs@.len() > 0 ==> {
                    &&& self.wf()
                    &&& self.kinds@.len() >= 1
                    &&& self.leaves_below(xs@.len() as int)
                    &&& settings.repulsion_mode is BarnesHut
                },
                ys@.len() >= xs@.len(),
                ms@.len() >= xs@.len(),
                n <= xs@.len(),
                out_xs@.len() == out0.0.len(),
                out_ys@.len() == out0.1.len(),
                out0.0.len() >= xs@.len(),
                out0.1.len() >= xs@.len(),
                forall|i: int|
                    0 <= i < n ==> (#[trigger] out_xs@[i], out_ys@[i]) == self.node_repulsion(
                        *settings,
                        i,
                        xs@,
                        ys@,
                        ms@,
                        (out0.0[i], out0.1[i]),
                    ),
                forall|i: int| n <= i < out0.0.len() ==> #[trigger] out_xs@[i] == out0.0[i],
                forall|i: int| n <= i < out0.1.len() ==> #[trigger] out_ys@[i] == out0.1[i],
            decreases xs@.len() - n,
        {
            let mut out_x = out_xs[n];
            let mut out_y = out_ys[n];
            self.apply_repulsion_for_node(settings, n, xs, ys, ms, &mut out_x, &mut out_y);
            out_xs[n] = out_x;
            out_ys[n] = out_y;
            n += 1;
        }
    }

    /// The number of regions.
    pub fn region_count(&self) -> (n: usize)
        ensures
            n == self@.kinds.len(),
    {
        self.kinds.len()
    }

    /// The nodes held by the leaves, in region order.
    pub fn leaf_nodes(&self) -> (nodes: Vec<usize>)
        ensures
            nodes@ == leaf_nodes_of(self@.kinds),
    {
        let mut nodes: Vec<usize> = Vec::new();
        let mut r: usize = 0;
        while r < self.kinds.len()
            invariant
                r <= self.kinds@.len(),
                nodes@ == leaf_nodes_of(self.kinds@.take(r as int)),
            decreases self.kinds@.len() - r,
        {
            assert(self.kinds@.take(r + 1).drop_last() =~= self.kinds@.take(r as int));
            assert(self.kinds@.take(r + 1).last() == self.kinds@[r as int]);
            match self.kinds[r] {
                RegionKind::Leaf { node } => nodes.push(node),
                _ => {},
            }
            r += 1;
        }
        assert(self.kinds@.take(self.kinds@.len() as int) =~= self.kinds@);
        nodes
    }

    /// Empty the tree and make its root the square region that holds the
    /// given `(min_x, max_x, min_y, max_y)` extent.
    pub fn reset_with_extent(&mut self, extent: (F, F, F, F))
        ensures
            final(self).wf(),
            final(self)@ == root_model(extent),
            regular(final(self)@),
            final(self)@.kinds == seq![RegionKind::<F>::Empty],
            final(self)@.center_xs == seq![root_region(extent).0],
            final(self)@.center_ys == seq![root_region(extent).1],
            final(self)@.sizes == seq![root_region(extent).2],
            final(self)@.next_siblings == seq![Option::<usize>::None],
    {
        self.clear();

        let (mut min_x, mut max_x, mut min_y, mut max_y) = extent;

        // Squarifying bounds
        let dx = max_x.sub(min_x);
        let dy = max_y.sub(min_y);

        let two = F::from_usize(2);

        if dy.lt(dx) {
            min_y = min_y.sub(dx.sub(dy).div(two));
            max_y = min_y.add(dx);
        } else {
            min_x = min_x.sub(dy.sub(dx).div(two));
            max_x = min_x.add(dy);
        }

        self.push_region(
            RegionKind::Empty,
            min_x.add(max_x).div(two),
            min_y.add(max_y).div(two),
            max_x.sub(min_x).max(max_y.sub(min_y)),
            None,
        );
        proof {
            assert(self.kinds@ =~= seq![RegionKind::<F>::Empty]);
            assert(self.next_siblings@ =~= seq![Option::<usize>::None]);
            assert(self.ranks_ok(seq![0int]));
        }
        assert(self.center_xs@ =~= seq![root_region(extent).0]);
        assert(self.center_ys@ =~= seq![root_region(extent).1]);
        assert(self.sizes@ =~= seq![root_region(extent).2]);
    }
}

} // verus!
