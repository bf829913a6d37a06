use vstd::prelude::*;

use crate::data::FA2Data;
use crate::layout::FA2Layout;
use crate::traits::{two, Float};

verus! {

/// How node repulsion is computed.
#[derive(Debug, Clone, Copy)]
pub enum RepulsionMode<F: Float> {
    /// Every pair of nodes repulses each other (`O(n²)`).
    Pairwise,
    /// Far away groups of nodes are approximated by their center of mass,
    /// using a Barnes-Hut tree with the given `theta` parameter.
    BarnesHut { theta: F },
}

/// Struct representing a settings of the FA2 layout algorithm.
#[derive(Debug, Clone, Copy)]
pub struct FA2Settings<F: Float> {
    pub repulsion_mode: RepulsionMode<F>,
    pub edge_weight_influence: F,
    pub gravity: F,
    pub strong_gravity_mode: bool,
    pub scaling_ratio: F,
    pub slow_down: F,
    pub parallel: bool,
}

/// The default settings: pairwise repulsion, every numeric setting at `1`,
/// no strong gravity and single-threaded.
pub open spec fn default_settings<F: Float>() -> FA2Settings<F> {
    FA2Settings {
        repulsion_mode: RepulsionMode::Pairwise,
        edge_weight_influence: F::spec_one(),
        gravity: F::spec_one(),
        strong_gravity_mode: false,
        scaling_ratio: F::spec_one(),
        slow_down: F::spec_one(),
        parallel: false,
    }
}

/// The `theta` that Barnes-Hut repulsion uses when none is given: `1 / 2`.
pub open spec fn default_theta<F: Float>() -> F {
    F::spec_one().spec_div(two::<F>())
}

/// The graph order from which inferred settings switch to Barnes-Hut
/// repulsion.
pub const BARNES_HUT_ORDER: usize = 2048;

/// The settings inferred from a graph's order.
pub open spec fn graph_order_settings<F: Float>(order: usize) -> FA2Settings<F> {
    FA2Settings {
        repulsion_mode: if order >= BARNES_HUT_ORDER {
            RepulsionMode::BarnesHut { theta: default_theta::<F>() }
        } else {
            RepulsionMode::Pairwise
        },
        strong_gravity_mode: true,
        gravity: F::spec_one().spec_div(F::spec_from_usize(20)),
        scaling_ratio: F::spec_from_usize(10),
        slow_down: F::spec_one().spec_add(F::spec_from_usize(order).spec_ln()),
        ..default_settings::<F>()
    }
}

impl<F: Float> Default for FA2Settings<F> {
    /// Instantiate default settings for the FA2 algorithm. That is to say
    /// pairwise repulsion, an `edge_weight_influence` of 1, a `gravity` of 1
    /// no `strong_gravity_mode`, a `scaling_ratio` of 1, a `slow_down` of 1
    /// and single-threaded.
    fn default() -> (s: Self)
        ensures
            s == default_settings::<F>(),
    {
        Self {
            repulsion_mode: RepulsionMode::Pairwise,
            edge_weight_influence: F::one(),
            gravity: F::one(),
            strong_gravity_mode: false,
            scaling_ratio: F::one(),
            slow_down: F::one(),
            parallel: false,
        }
    }
}

impl<F: Float> FA2Settings<F> {
    /// Automatically inferring suitable settings based on a graph's order (its
    /// number of nodes).
    pub fn from_graph_order(order: usize) -> (s: Self)
        ensures
            s == graph_order_settings::<F>(order),
    {
        let defaults = Self::default();
        Self {
            repulsion_mode: if order >= BARNES_HUT_ORDER {
                RepulsionMode::BarnesHut { theta: F::one().div(F::from_usize(2)) }
            } else {
                RepulsionMode::Pairwise
            },
            strong_gravity_mode: true,
            gravity: F::one().div(F::from_usize(20)),
            scaling_ratio: F::from_usize(10),
            slow_down: F::one().add(F::from_usize(order).ln()),
            ..defaults
        }
    }

    /// Set the layout to run in parallel (using multiple threads).
    pub fn parallel(self, yes: bool) -> (s: Self)
        ensures
            s == (FA2Settings { parallel: yes, ..self }),
    {
        let mut s = self;
        s.parallel = yes;
        s
    }

    /// Set the layout to use pairwise repulsion (`O(n²)`).
    pub fn with_pairwise_repulsion(self) -> (s: Self)
        ensures
            s == (FA2Settings { repulsion_mode: RepulsionMode::Pairwise, ..self }),
    {
        let mut s = self;
        s.repulsion_mode = RepulsionMode::Pairwise;
        s
    }

    /// Set the layout to use Barnes-Hut repulsion using the provided theta
    /// parameter (`O(n log(n))`).
    pub fn with_barnes_hut_theta(self, theta: F) -> (s: Self)
        ensures
            s == (FA2Settings { repulsion_mode: RepulsionMode::BarnesHut { theta }, ..self }),
    {
        let mut s = self;
        s.repulsion_mode = RepulsionMode::BarnesHut { theta };
        s
    }

    /// Set the layout to use Barnes-Hut repulsion using the default `0.5` theta
    /// parameter (`O(n log(n))`).
    pub fn with_barnes_hut(self) -> (s: Self)
        ensures
            s == (FA2Settings {
                repulsion_mode: RepulsionMode::BarnesHut { theta: default_theta::<F>() },
                ..self
            }),
    {
        self.with_barnes_hut_theta(F::one().div(F::from_usize(2)))
    }

    /// Set the `edge_weight_influence` setting. Defaults to `1.0`.
    pub fn edge_weight_influence(self, edge_weight_influence: F) -> (s: Self)
        ensures
            s == (FA2Settings { edge_weight_influence, ..self }),
    {
        let mut s = self;
        s.edge_weight_influence = edge_weight_influence;
        s
    }

    /// Set the `gravity` setting. Defaults to `1.0`.
    pub fn gravity(self, gravity: F) -> (s: Self)
        ensures
            s == (FA2Settings { gravity, ..self }),
    {
        let mut s = self;
        s.gravity = gravity;
        s
    }

    /// Set the `gravity` setting. Defaults to `1.0`.
    ///
    /// The `scaling_ratio` field itself is left as it is; it can be set
    /// directly on the public field.
    pub fn scaling_ratio(self, scaling_ratio: F) -> (s: Self)
        ensures
            s == (FA2Settings { gravity: scaling_ratio, ..self }),
    {
        let mut s = self;
        s.gravity = scaling_ratio;
        s
    }

    /// Set the `slow_down` setting. Defaults to `1.0`.
    pub fn slow_down(self, slow_down: F) -> (s: Self)
        ensures
            s == (FA2Settings { slow_down, ..self }),
    {
        let mut s = self;
        s.slow_down = slow_down;
        s
    }

    /// Set whether to use stronger gravity. Defaults to no.
    pub fn strong_gravity_mode(self, yes: bool) -> (s: Self)
        ensures
            s == (FA2Settings { strong_gravity_mode: yes, ..self }),
    {
        let mut s = self;
        s.strong_gravity_mode = yes;
        s
    }

    /// The `theta` parameter of Barnes-Hut repulsion; only meaningful when
    /// the settings use Barnes-Hut repulsion.
    pub fn unwrap_barnes_hut_theta(&self) -> (theta: F)
        requires
            self.repulsion_mode is BarnesHut,
        ensures
            theta == self.repulsion_mode->theta,
    {
        match &self.repulsion_mode {
            RepulsionMode::BarnesHut { theta } => *theta,
            RepulsionMode::Pairwise => F::zero(),
        }
    }

    /// Build a [`FA2Layout`] layout runner wrapping given [`FA2Data`].
    pub fn build(self, data: FA2Data<F>) -> (layout: FA2Layout<F>)
        requires
            data.wf(),
            12 * data.xs@.len() + 1 <= usize::MAX,
            data.edges@.len() * 2 <= usize::MAX,
        ensures
            layout.wf(),
            layout.spec_settings() == self,
            layout.spec_data() == data,
    {
        FA2Layout::new(self, data)
    }
}

} // verus!
