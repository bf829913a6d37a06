use fa2::attraction::{apply_attraction, apply_nodewise_attraction};
use fa2::barnes_hut::{quadrant, BarnesHutTree, Quadrant};
use fa2::builder::FA2Data as BuilderData;
use fa2::data::{FA2Data, NeighborhoodIndex};
use fa2::forces::{apply_forces, apply_nodewise_forces};
use fa2::gravity::{apply_gravity, apply_nodewise_gravity};
use fa2::repulsion::{apply_nodewise_repulsion, apply_pairwise_repulsion};
use fa2::settings::{FA2Settings, RepulsionMode};
use fa2::traits::Float;

/// A number of the layout, backed by a float of `num_traits`.
#[derive(Debug, Clone, Copy, PartialEq)]
struct N<T>(T);

impl<T: num_traits::Float + num_traits::FloatConst> Float for N<T> {
    fn zero() -> Self {
        N(T::zero())
    }
    fn one() -> Self {
        N(T::one())
    }
    fn tau() -> Self {
        N(T::TAU())
    }
    fn from_usize(n: usize) -> Self {
        N(T::from(n).unwrap())
    }
    fn add(self, rhs: Self) -> Self {
        N(self.0 + rhs.0)
    }
    fn sub(self, rhs: Self) -> Self {
        N(self.0 - rhs.0)
    }
    fn mul(self, rhs: Self) -> Self {
        N(self.0 * rhs.0)
    }
    fn div(self, rhs: Self) -> Self {
        N(self.0 / rhs.0)
    }
    fn neg(self) -> Self {
        N(-self.0)
    }
    fn powi(self, n: i32) -> Self {
        N(self.0.powi(n))
    }
    fn powf(self, e: Self) -> Self {
        N(self.0.powf(e.0))
    }
    fn sqrt(self) -> Self {
        N(self.0.sqrt())
    }
    fn ln(self) -> Self {
        N(self.0.ln())
    }
    fn ln_1p(self) -> Self {
        N(self.0.ln_1p())
    }
    fn abs(self) -> Self {
        N(self.0.abs())
    }
    fn min(self, rhs: Self) -> Self {
        N(self.0.min(rhs.0))
    }
    fn max(self, rhs: Self) -> Self {
        N(self.0.max(rhs.0))
    }
    fn cos(self) -> Self {
        N(self.0.cos())
    }
    fn sin(self) -> Self {
        N(self.0.sin())
    }
    fn lt(self, rhs: Self) -> bool {
        self.0 < rhs.0
    }

    // The spec counterparts are the operations themselves.
    fn spec_zero() -> Self {
        Self::zero()
    }
    fn spec_one() -> Self {
        Self::one()
    }
    fn spec_tau() -> Self {
        Self::tau()
    }
    fn spec_from_usize(n: usize) -> Self {
        Self::from_usize(n)
    }
    fn spec_add(self, rhs: Self) -> Self {
        self.add(rhs)
    }
    fn spec_sub(self, rhs: Self) -> Self {
        self.sub(rhs)
    }
    fn spec_mul(self, rhs: Self) -> Self {
        self.mul(rhs)
    }
    fn spec_div(self, rhs: Self) -> Self {
        self.div(rhs)
    }
    fn spec_neg(self) -> Self {
        self.neg()
    }
    fn spec_powi(self, n: i32) -> Self {
        self.powi(n)
    }
    fn spec_powf(self, e: Self) -> Self {
        self.powf(e)
    }
    fn spec_sqrt(self) -> Self {
        self.sqrt()
    }
    fn spec_ln(self) -> Self {
        self.ln()
    }
    fn spec_ln_1p(self) -> Self {
        self.ln_1p()
    }
    fn spec_abs(self) -> Self {
        self.abs()
    }
    fn spec_min(self, rhs: Self) -> Self {
        self.min(rhs)
    }
    fn spec_max(self, rhs: Self) -> Self {
        self.max(rhs)
    }
    fn spec_cos(self) -> Self {
        self.cos()
    }
    fn spec_sin(self) -> Self {
        self.sin()
    }
    fn spec_lt(self, rhs: Self) -> bool {
        self.lt(rhs)
    }
}

type F32 = N<f32>;

fn v(xs: &[f32]) -> Vec<F32> {
    xs.iter().map(|x| N(*x)).collect()
}

fn settings() -> FA2Settings<F32> {
    FA2Settings::default()
}

// ---------------------------------------------------------------------------
// Scenarios of the layout's building blocks.
// ---------------------------------------------------------------------------

#[test]
fn test_apply_attraction() {
    let settings = settings();

    let xs = v(&[1.0, 2.0]);
    let ys = v(&[3.0, -5.0]);
    let edges = [(0, 1, N(1.0))];
    let mut out_xs = v(&[1.0, 2.0]);
    let mut out_ys = v(&[3.0, -5.0]);

    apply_attraction(&settings, &xs, &ys, &edges, &mut out_xs, &mut out_ys);

    assert_eq!(out_xs, v(&[2.0, 1.0]));
    assert_eq!(out_ys, v(&[-5.0, 3.0]))
}

#[test]
fn test_construction() {
    let mut data = FA2Data::new();
    data.add_node(N(1.0f32), N(9.0));
    data.add_node(N(-1.0), N(8.0));
    data.add_node(N(4.0), N(1.0));
    data.add_node(N(9.0), N(10.0));
    data.add_node(N(3.0), N(0.0));

    let extent = data.positions_extent().unwrap();

    let mut tree = BarnesHutTree::with_capacity(5);
    tree.reset_with_extent(extent);
    tree.read(&data.xs, &data.ys, &data.ms);

    assert_eq!(tree.region_count(), 13);
    assert_eq!(tree.leaf_nodes(), [4, 2, 3, 0]);
}

#[test]
fn builder_test_positions_extent() {
    let mut data = BuilderData::<F32>::new();
    data.add_node(N(1.0), N(-3.0));
    data.add_node(N(-1.0), N(4.0));
    data.add_node(N(6.0), N(1.0));
    data.add_node(N(9.0), N(31.0));
    data.add_node(N(1.0), N(3.0));

    let extent = data.positions_extent();

    assert_eq!(extent, Some((N(-1.0), N(9.0), N(-3.0), N(31.0))));
}

#[test]
fn data_test_positions_extent() {
    let mut data = FA2Data::<F32>::new();
    data.add_node(N(1.0), N(-3.0));
    data.add_node(N(-1.0), N(4.0));
    data.add_node(N(6.0), N(1.0));
    data.add_node(N(9.0), N(31.0));
    data.add_node(N(1.0), N(3.0));

    let extent = data.positions_extent();

    assert_eq!(extent, Some((N(-1.0), N(9.0), N(-3.0), N(31.0))));
}

#[test]
fn test_neighborhood_index() {
    let mut data = FA2Data::<F32>::new();

    for _ in 0..5 {
        data.add_node(N(0.0), N(0.0));
    }

    data.add_edge(0, 1);
    data.add_edge(0, 2);
    data.add_edge_with_weight(0, 3, N(4.0));
    data.add_edge(2, 0);
    data.add_edge(4, 1);
    data.add_edge(2, 3);

    let index = NeighborhoodIndex::from(&data);

    assert_eq!(index.stubs(0), [(2, N(1.0)), (3, N(4.0)), (2, N(1.0)), (1, N(1.0))]);
    assert_eq!(index.stubs(1), [(4, N(1.0)), (0, N(1.0))]);
    assert_eq!(index.stubs(2), [(3, N(1.0)), (0, N(1.0)), (0, N(1.0))]);
    assert_eq!(index.stubs(3), [(2, N(1.0)), (0, N(4.0))]);
    assert_eq!(index.stubs(4), [(1, N(1.0))]);
}

#[test]
fn test_apply_forces() {
    let settings = settings();

    let mut xs = v(&[1.0, 2.0]);
    let mut ys = v(&[3.0, -5.0]);
    let ms = v(&[1.0, 1.5]);
    let delta_xs = v(&[1.0, -4.0]);
    let delta_ys = v(&[2.0, -5.0]);
    let mut convergences = v(&[1.0, 1.0]);

    let total_movement = apply_forces(
        &settings,
        &mut xs,
        &mut ys,
        &ms,
        &delta_xs,
        &delta_ys,
        &v(&[0.0, 0.0]),
        &v(&[0.0, 0.0]),
        &mut convergences,
    );

    assert_eq!(total_movement, N(4.0539246));
    assert_eq!(xs, v(&[1.3007548, 0.599262]));
    assert_eq!(ys, v(&[3.6015096, -6.750922]));
    assert_eq!(convergences, v(&[0.776293, 1.0]));
}

#[test]
fn test_apply_gravity() {
    let settings = settings();

    let xs = v(&[1.0, 2.0]);
    let ys = v(&[3.0, -5.0]);
    let ms = v(&[1.0, 1.5]);
    let mut out_xs = v(&[1.0, 2.0]);
    let mut out_ys = v(&[3.0, -5.0]);

    apply_gravity(&settings, &xs, &ys, &ms, &mut out_xs, &mut out_ys);

    assert_eq!(out_xs, v(&[0.6837722, 1.442914]));
    assert_eq!(out_ys, v(&[2.0513167, -3.607285]));
}

#[test]
fn test_apply_pairwise_repulsion() {
    let settings = settings();

    let xs = v(&[1.0, 2.0]);
    let ys = v(&[3.0, -5.0]);
    let ms = v(&[1.0, 1.5]);
    let mut out_xs = v(&[1.0, 2.0]);
    let mut out_ys = v(&[3.0, -5.0]);

    apply_pairwise_repulsion(&settings, &xs, &ys, &ms, &mut out_xs, &mut out_ys);

    assert_eq!(out_xs, v(&[0.97692305, 2.023077]));
    assert_eq!(out_ys, v(&[3.1846154, -5.1846156]));
}

#[test]
fn test_apply_nodewise_repulsion() {
    let settings = settings();

    let xs = v(&[1.0, 2.0]);
    let ys = v(&[3.0, -5.0]);
    let ms = v(&[1.0, 1.5]);
    let mut out_xs = v(&[1.0, 2.0]);
    let mut out_ys = v(&[3.0, -5.0]);

    apply_nodewise_repulsion(
        &settings,
        xs[0],
        ys[0],
        ms[0],
        &xs,
        &ys,
        &ms,
        &mut out_xs[0],
        &mut out_ys[0],
    );

    assert_eq!(out_xs, v(&[0.97692305, 2.0]));
    assert_eq!(out_ys, v(&[3.1846154, -5.0]));
}

#[test]
fn test_from_graph_order() {
    let settings = FA2Settings::<N<f32>>::from_graph_order(32);

    assert_eq!(settings.slow_down, N(4.465736));

    let settings = FA2Settings::<N<f64>>::from_graph_order(32);

    assert_eq!(settings.slow_down, N(4.465735902799727));
}

// ---------------------------------------------------------------------------
// The library's laws and edge cases, on concrete values.
// ---------------------------------------------------------------------------

#[test]
fn add_node_returns_the_previous_order() {
    let mut data = FA2Data::<F32>::with_capacity(2, 1);
    assert_eq!(data.order(), 0);
    assert_eq!(data.add_node(N(1.0), N(2.0)), 0);
    assert_eq!(data.add_node(N(3.0), N(4.0)), 1);
    assert_eq!(data.order(), 2);
    assert_eq!(data.size(), 0);
    assert_eq!(data.ms, v(&[1.0, 1.0]));
    assert_eq!(data.convergences, v(&[1.0, 1.0]));
    assert_eq!(data.delta_xs, v(&[0.0, 0.0]));
    assert_eq!(data.positions(), vec![(N(1.0), N(2.0)), (N(3.0), N(4.0))]);
}

#[test]
fn add_edge_adds_its_weight_to_both_endpoints() {
    let mut data = FA2Data::<F32>::with_node_capacity(3);
    for _ in 0..3 {
        data.add_node(N(0.0), N(0.0));
    }
    data.add_edge_with_weight(0, 1, N(2.5));
    data.add_edge(1, 1);
    assert_eq!(data.ms, v(&[3.5, 5.5, 1.0]));
    assert_eq!(data.size(), 2);
    assert_eq!(data.edges, vec![(0, 1, N(2.5)), (1, 1, N(1.0))]);
}

#[test]
fn set_node_position_moves_one_node() {
    let mut data = FA2Data::<F32>::new();
    data.add_node(N(0.0), N(0.0));
    data.add_node(N(1.0), N(1.0));
    data.set_node_position(1, N(5.0), N(-5.0));
    assert_eq!(data.xs, v(&[0.0, 5.0]));
    assert_eq!(data.ys, v(&[0.0, -5.0]));
}

#[test]
fn extent_of_no_node_is_none() {
    let data = FA2Data::<F32>::new();
    assert_eq!(data.positions_extent(), None);
    let builder = BuilderData::<F32>::with_capacity(4, 4);
    assert_eq!(builder.positions_extent(), None);
}

#[test]
fn reset_keeps_the_previous_deltas() {
    let mut data = FA2Data::<F32>::new();
    data.add_node(N(0.0), N(0.0));
    data.add_node(N(1.0), N(1.0));
    data.delta_xs = v(&[1.0, 2.0]);
    data.delta_ys = v(&[3.0, 4.0]);
    data.reset();
    assert_eq!(data.old_delta_xs, v(&[1.0, 2.0]));
    assert_eq!(data.old_delta_ys, v(&[3.0, 4.0]));
    assert_eq!(data.delta_xs, v(&[0.0, 0.0]));
    assert_eq!(data.delta_ys, v(&[0.0, 0.0]));
}

#[test]
fn circular_layout_places_nodes_on_the_unit_circle() {
    let mut data = FA2Data::<N<f64>>::new();
    for _ in 0..4 {
        data.add_node(N(7.0), N(7.0));
    }
    data.apply_circular_layout();
    let expected: Vec<(f64, f64)> = (0..4)
        .map(|i| {
            let p = (i as f64) * std::f64::consts::TAU / 4.0;
            (p.cos(), p.sin())
        })
        .collect();
    for (k, (x, y)) in data.positions().into_iter().enumerate() {
        assert_eq!(x.0, expected[k].0);
        assert_eq!(y.0, expected[k].1);
    }
    assert_eq!(data.xs[0], N(1.0));
    assert_eq!(data.ys[0], N(0.0));
}

#[test]
fn builder_data_keeps_nodes_in_triples() {
    let mut data = BuilderData::<F32>::new();
    assert_eq!(data.add_node(N(1.0), N(2.0)), 0);
    assert_eq!(data.add_node(N(3.0), N(4.0)), 1);
    data.add_edge_with_weight(0, 1, N(2.0));
    data.add_edge(0, 0);
    assert_eq!(data.order(), 2);
    assert_eq!(data.nodes, v(&[1.0, 2.0, 5.0, 3.0, 4.0, 3.0]));
    data.deltas = v(&[1.0, 2.0, 3.0, 4.0]);
    data.reset();
    assert_eq!(data.last_deltas, v(&[1.0, 2.0, 3.0, 4.0]));
    assert_eq!(data.deltas, v(&[0.0, 0.0, 0.0, 0.0]));
    data.apply_circular_layout();
    assert_eq!(data.nodes[0], N(1.0));
    assert_eq!(data.nodes[1], N(0.0));
    assert_eq!(data.nodes[2], N(5.0));
    assert_eq!(data.nodes[5], N(3.0));
}

#[test]
fn settings_builders_change_one_setting_each() {
    let s = settings();
    assert!(matches!(s.repulsion_mode, RepulsionMode::Pairwise));
    assert_eq!(s.gravity, N(1.0));
    assert!(!s.parallel);
    let s = s.parallel(true).gravity(N(2.0)).slow_down(N(4.0));
    let s = s.edge_weight_influence(N(0.5)).strong_gravity_mode(true);
    assert!(s.parallel);
    assert!(s.strong_gravity_mode);
    assert_eq!(s.gravity, N(2.0));
    assert_eq!(s.scaling_ratio, N(1.0));
    assert_eq!(s.slow_down, N(4.0));
    assert_eq!(s.edge_weight_influence, N(0.5));
    let s = s.with_barnes_hut();
    assert_eq!(s.unwrap_barnes_hut_theta(), N(0.5));
    let s = s.with_barnes_hut_theta(N(0.25));
    assert_eq!(s.unwrap_barnes_hut_theta(), N(0.25));
    let s = s.with_pairwise_repulsion();
    assert!(matches!(s.repulsion_mode, RepulsionMode::Pairwise));
}

#[test]
fn scaling_ratio_setter_sets_gravity() {
    let s = settings().scaling_ratio(N(3.0));
    assert_eq!(s.gravity, N(3.0));
    assert_eq!(s.scaling_ratio, N(1.0));
    assert_eq!(s.slow_down, N(1.0));
}

#[test]
fn large_graphs_get_barnes_hut_settings() {
    let small = FA2Settings::<F32>::from_graph_order(2047);
    assert!(matches!(small.repulsion_mode, RepulsionMode::Pairwise));
    let large = FA2Settings::<F32>::from_graph_order(2048);
    assert_eq!(large.unwrap_barnes_hut_theta(), N(0.5));
    assert_eq!(large.gravity, N(0.05));
    assert_eq!(large.scaling_ratio, N(10.0));
    assert!(large.strong_gravity_mode);
    assert!(!large.parallel);
    assert_eq!(large.edge_weight_influence, N(1.0));
}

#[test]
fn loops_leave_an_empty_stub() {
    let mut data = FA2Data::<F32>::new();
    data.add_node(N(0.0), N(0.0));
    data.add_node(N(0.0), N(0.0));
    data.add_edge_with_weight(1, 1, N(3.0));
    data.add_edge(0, 1);
    let index = NeighborhoodIndex::from(&data);
    assert_eq!(index.stubs(0), [(1, N(1.0))]);
    assert_eq!(index.stubs(1), [(0, N(1.0)), (1, N(3.0)), (0, N(0.0))]);
}

#[test]
fn nodewise_attraction_reads_the_adjacency_list() {
    let settings = settings();
    let mut data = FA2Data::<F32>::new();
    data.add_node(N(1.0), N(3.0));
    data.add_node(N(2.0), N(-5.0));
    data.add_edge(0, 1);
    let index = NeighborhoodIndex::from(&data);
    let mut out_x = N(1.0);
    let mut out_y = N(3.0);
    apply_nodewise_attraction(&settings, &index, 0, &data.xs, &data.ys, &mut out_x, &mut out_y);
    assert_eq!((out_x, out_y), (N(2.0), N(-5.0)));
}

#[test]
fn nodewise_gravity_matches_gravity() {
    let settings = settings();
    let mut out_x = N(2.0f32);
    let mut out_y = N(-5.0);
    apply_nodewise_gravity(&settings, N(2.0), N(-5.0), N(1.5), &mut out_x, &mut out_y);
    assert_eq!((out_x, out_y), (N(1.442914), N(-3.607285)));

    let strong = settings.strong_gravity_mode(true);
    let mut out_x = N(0.0f32);
    let mut out_y = N(0.0);
    apply_nodewise_gravity(&strong, N(3.0), N(4.0), N(2.0), &mut out_x, &mut out_y);
    assert_eq!((out_x, out_y), (N(-6.0), N(-8.0)));

    let mut out_x = N(1.0f32);
    let mut out_y = N(1.0);
    apply_nodewise_gravity(&settings, N(0.0), N(0.0), N(2.0), &mut out_x, &mut out_y);
    assert_eq!((out_x, out_y), (N(1.0), N(1.0)));
}

#[test]
fn nodewise_forces_match_forces() {
    let settings = settings();
    let mut x = N(1.0f32);
    let mut y = N(3.0);
    let mut c = N(1.0);
    let movement =
        apply_nodewise_forces(&settings, &mut x, &mut y, N(1.0), N(1.0), N(2.0), N(0.0), N(0.0), &mut c);
    assert_eq!((x, y, c), (N(1.3007548), N(3.6015096), N(0.776293)));
    assert_eq!(movement, N((1.0f32 - x.0).abs() + (3.0f32 - y.0).abs()));
}

#[test]
fn coincident_nodes_do_not_repulse() {
    let settings = settings();
    let xs = v(&[1.0, 1.0]);
    let ys = v(&[1.0, 1.0]);
    let ms = v(&[1.0, 1.0]);
    let mut out_xs = v(&[0.0, 0.0]);
    let mut out_ys = v(&[0.0, 0.0]);
    apply_pairwise_repulsion(&settings, &xs, &ys, &ms, &mut out_xs, &mut out_ys);
    assert_eq!(out_xs, v(&[0.0, 0.0]));
    assert_eq!(out_ys, v(&[0.0, 0.0]));
}

#[test]
fn quadrants_are_ordered_top_left_first() {
    assert!(quadrant(N(0.0f32), N(0.0), N(1.0), N(1.0)) == Quadrant::TopLeft);
    assert!(quadrant(N(0.0f32), N(2.0), N(1.0), N(1.0)) == Quadrant::BottomLeft);
    assert!(quadrant(N(2.0f32), N(0.0), N(1.0), N(1.0)) == Quadrant::TopRight);
    assert!(quadrant(N(2.0f32), N(2.0), N(1.0), N(1.0)) == Quadrant::BottomRight);
    assert_eq!(Quadrant::BottomRight.offset(5), 8);
}

#[test]
fn barnes_hut_on_two_nodes_is_exact() {
    let settings = settings().with_barnes_hut();
    let xs = v(&[1.0, 2.0]);
    let ys = v(&[3.0, -5.0]);
    let ms = v(&[1.0, 1.5]);
    let mut tree = BarnesHutTree::with_capacity(2);
    tree.reset_with_extent((N(1.0), N(2.0), N(-5.0), N(3.0)));
    assert_eq!(tree.region_count(), 1);
    tree.read(&xs, &ys, &ms);
    assert_eq!(tree.region_count(), 5);
    let mut leaves = tree.leaf_nodes();
    leaves.sort();
    assert_eq!(leaves, [0, 1]);
    let mut out_xs = v(&[1.0, 2.0]);
    let mut out_ys = v(&[3.0, -5.0]);
    tree.apply_repulsion(&settings, &xs, &ys, &ms, &mut out_xs, &mut out_ys);
    // Each node sees the other one as a leaf: factor = m1 * m2 / distance².
    let f0 = 1.0f32 * 1.0 * 1.5 / 65.0;
    let f1 = 1.0f32 * 1.5 * 1.0 / 65.0;
    assert_eq!(out_xs, v(&[1.0 + -1.0 * f0, 2.0 + 1.0 * f1]));
    assert_eq!(out_ys, v(&[3.0 + 8.0 * f0, -5.0 + -8.0 * f1]));
}

fn small_graph() -> FA2Data<F32> {
    let mut data = FA2Data::<F32>::new();
    data.add_node(N(1.0), N(3.0));
    data.add_node(N(2.0), N(-5.0));
    data.add_node(N(-4.0), N(0.5));
    data.add_edge(0, 1);
    data.add_edge(1, 2);
    data
}

#[test]
fn epochs_keep_the_graph() {
    for parallel in [false, true] {
        for barnes_hut in [false, true] {
            let mut s = settings().parallel(parallel);
            if barnes_hut {
                s = s.with_barnes_hut();
            }
            let mut layout = s.build(small_graph());
            let movement = layout.epoch();
            assert!(movement.0 > 0.0);
            layout.run(3);
            let data = layout.into_data();
            assert_eq!(data.order(), 3);
            assert_eq!(data.size(), 2);
            assert_eq!(data.ms, v(&[2.0, 3.0, 2.0]));
        }
    }
}

#[test]
fn parallel_and_sequential_pairwise_epochs_agree_on_two_nodes() {
    let mut two = FA2Data::<F32>::new();
    two.add_node(N(1.0), N(3.0));
    two.add_node(N(2.0), N(-5.0));
    let mut sequential = settings().build(two);
    let mut two = FA2Data::<F32>::new();
    two.add_node(N(1.0), N(3.0));
    two.add_node(N(2.0), N(-5.0));
    let mut parallel = settings().parallel(true).build(two);
    assert_eq!(sequential.epoch(), parallel.epoch());
    assert_eq!(sequential.data().xs, parallel.data().xs);
    assert_eq!(sequential.data().ys, parallel.data().ys);
}

#[test]
fn epoch_deltas_are_repulsion_then_gravity() {
    // Two nodes, no edge: the deltas are the repulsion, then gravity.
    let mut two = FA2Data::<F32>::new();
    two.add_node(N(1.0), N(3.0));
    two.add_node(N(2.0), N(-5.0));
    let mut layout = settings().build(two);
    layout.epoch();
    let data = layout.data();
    let xs = v(&[1.0, 2.0]);
    let ys = v(&[3.0, -5.0]);
    let ms = v(&[1.0, 1.0]);
    let mut out_xs = v(&[0.0, 0.0]);
    let mut out_ys = v(&[0.0, 0.0]);
    apply_pairwise_repulsion(&settings(), &xs, &ys, &ms, &mut out_xs, &mut out_ys);
    apply_gravity(&settings(), &xs, &ys, &ms, &mut out_xs, &mut out_ys);
    assert_eq!(data.delta_xs, out_xs);
    assert_eq!(data.delta_ys, out_ys);
    assert_eq!(data.old_delta_xs, v(&[0.0, 0.0]));
}

#[test]
fn node_delta_then_finish_epoch_is_a_parallel_epoch() {
    let mut by_steps = settings().parallel(true).build(small_graph());
    let mut whole = settings().parallel(true).build(small_graph());
    by_steps.prepare_epoch();
    let deltas: Vec<(F32, F32)> = (0..3).map(|n| by_steps.node_delta(n)).collect();
    let movement = by_steps.finish_epoch(&deltas);
    assert_eq!(movement, whole.epoch());
    assert_eq!(by_steps.data().xs, whole.data().xs);
    assert_eq!(by_steps.data().ys, whole.data().ys);
    assert_eq!(by_steps.data().convergences, whole.data().convergences);
}

#[test]
fn run_is_as_many_epochs() {
    for barnes_hut in [false, true] {
        let mut s = settings();
        if barnes_hut {
            s = s.with_barnes_hut();
        }
        let mut ran = s.build(small_graph());
        let mut stepped = s.build(small_graph());
        ran.run(4);
        for _ in 0..4 {
            stepped.epoch();
        }
        assert_eq!(ran.data().xs, stepped.data().xs);
        assert_eq!(ran.data().ys, stepped.data().ys);
        assert_eq!(ran.data().convergences, stepped.data().convergences);
    }
}

#[test]
fn run_zero_epochs_on_an_empty_barnes_hut_layout() {
    let mut layout = settings().with_barnes_hut().build(FA2Data::<F32>::new());
    layout.run(0);
    assert_eq!(layout.data().order(), 0);
}

#[test]
fn tree_regions_come_in_fours_and_keep_the_first_node() {
    let mut data = FA2Data::new();
    for (x, y) in [(1.0f32, 9.0), (-1.0, 8.0), (4.0, 1.0), (9.0, 10.0), (3.0, 0.0), (3.5, 0.5)] {
        data.add_node(N(x), N(y));
    }
    let mut tree = BarnesHutTree::with_capacity(6);
    tree.reset_with_extent(data.positions_extent().unwrap());
    tree.read(&data.xs, &data.ys, &data.ms);
    assert_eq!(tree.region_count() % 4, 1);
    assert!(tree.leaf_nodes().contains(&0));
}

#[test]
fn repulsion_of_no_node_needs_no_tree() {
    let tree = BarnesHutTree::<F32>::with_capacity(0);
    let mut out_xs: Vec<F32> = Vec::new();
    let mut out_ys: Vec<F32> = Vec::new();
    tree.apply_repulsion(&settings(), &[], &[], &[], &mut out_xs, &mut out_ys);
    assert!(out_xs.is_empty() && out_ys.is_empty());
}

#[test]
fn a_node_is_left_out_after_three_splits_in_the_same_quadrant() {
    let mut data = FA2Data::new();
    data.add_node(N(0.0f32), N(0.0));
    data.add_node(N(0.01), N(0.01));
    data.add_node(N(10.0), N(10.0));
    let mut tree = BarnesHutTree::with_capacity(3);
    tree.reset_with_extent(data.positions_extent().unwrap());
    tree.read(&data.xs, &data.ys, &data.ms);
    assert_eq!(tree.region_count(), 13);
    assert_eq!(tree.leaf_nodes(), [2, 0]);
}

#[test]
fn trees_read_from_the_same_nodes_are_equal() {
    let xs = v(&[1.0, 2.0, -3.0]);
    let ys = v(&[3.0, -5.0, 0.5]);
    let ms = v(&[1.0, 1.5, 2.0]);
    let extent = (N(-3.0), N(2.0), N(-5.0), N(3.0));
    let mut a = BarnesHutTree::with_capacity(3);
    a.reset_with_extent(extent);
    a.read(&xs, &ys, &ms);
    let mut b = BarnesHutTree::with_capacity(0);
    b.reset_with_extent(extent);
    assert!(a != b);
    b.read(&xs, &ys, &ms);
    assert!(a == b);
}
