use vstd::prelude::*;

use crate::settings::FA2Settings;
use crate::traits::{square, two, Float};

verus! {

/// The result of moving one node: its new position, its new convergence
/// and the distance (in the taxicab metric) that it moved.
pub struct NodeMove<F> {
    pub x: F,
    pub y: F,
    pub convergence: F,
    pub movement: F,
}

/// How a node of mass `m` at `(x, y)` moves, given its current deltas
/// `(dx, dy)`, its previous ones `(old_dx, old_dy)` and its convergence `c`.
///
/// The node swings as much as its deltas changed, and its traction is the
/// average of both deltas; its speed grows with traction and shrinks with
/// swinging, scaled by its convergence and slowed down by `slow_down`.
pub open spec fn node_move<F: Float>(
    settings: FA2Settings<F>,
    x: F,
    y: F,
    m: F,
    dx: F,
    dy: F,
    old_dx: F,
    old_dy: F,
    c: F,
) -> NodeMove<F> {
    let swinging = m.spec_mul(
        square(old_dx.spec_sub(dx)).spec_add(square(old_dy.spec_sub(dy))).spec_sqrt(),
    );
    let swinging = F::spec_one().spec_add(swinging.spec_sqrt());
    let traction = square(old_dx.spec_add(dx)).spec_add(square(old_dy.spec_add(dy))).spec_sqrt().spec_div(
        two::<F>(),
    );
    let speed = c.spec_mul(traction.spec_ln_1p()).spec_div(swinging);
    let convergence = speed.spec_mul(square(dx).spec_add(square(dy)).spec_div(swinging)).spec_sqrt().spec_min(
        F::spec_one(),
    );
    let speed = speed.spec_div(settings.slow_down);
    let new_x = x.spec_add(dx.spec_mul(speed));
    let new_y = y.spec_add(dy.spec_mul(speed));
    NodeMove {
        x: new_x,
        y: new_y,
        convergence,
        movement: x.spec_sub(new_x).spec_abs().spec_add(y.spec_sub(new_y).spec_abs()),
    }
}

/// How a node moves depends on its mass and its previous deltas only
/// through its swinging, `m * |old_delta - delta|`, and its traction,
/// `|old_delta + delta|`: two nodes at the same place, with the same deltas
/// and convergence, whose swinging and traction agree, move alike. In
/// particular the change of the deltas, not their sum, is what makes a node
/// swing.
pub proof fn lemma_move_through_swinging_and_traction<F: Float>(
    settings: FA2Settings<F>,
    x: F,
    y: F,
    dx: F,
    dy: F,
    c: F,
    m1: F,
    old_dx1: F,
    old_dy1: F,
    m2: F,
    old_dx2: F,
    old_dy2: F,
)
    requires
        m1.spec_mul(square(old_dx1.spec_sub(dx)).spec_add(square(old_dy1.spec_sub(dy))).spec_sqrt())
            == m2.spec_mul(square(old_dx2.spec_sub(dx)).spec_add(square(old_dy2.spec_sub(dy))).spec_sqrt()),
        square(old_dx1.spec_add(dx)).spec_add(square(old_dy1.spec_add(dy))).spec_sqrt() == square(
            old_dx2.spec_add(dx),
        ).spec_add(square(old_dy2.spec_add(dy))).spec_sqrt(),
    ensures
        node_move(settings, x, y, m1, dx, dy, old_dx1, old_dy1, c) == node_move(
            settings,
            x,
            y,
            m2,
            dx,
            dy,
            old_dx2,
            old_dy2,
            c,
        ),
{
}

/// A node moves along its delta, at a speed that grows with its traction
/// and shrinks with its swinging: its new position is its old one plus its
/// delta times `c * ln(1 + traction / 2) / (1 + sqrt(swinging)) /
/// slow_down`, where the swinging is `m * |old_delta - delta|` and the
/// traction `|old_delta + delta|`; the distance it reports is the taxicab
/// distance between both positions; and its new convergence is
/// `min(1, sqrt(speed * |delta|^2 / (1 + sqrt(swinging))))`, with the speed
/// taken before the slow-down.
pub proof fn lemma_move_along_delta<F: Float>(
    settings: FA2Settings<F>,
    x: F,
    y: F,
    m: F,
    dx: F,
    dy: F,
    old_dx: F,
    old_dy: F,
    c: F,
)
    ensures
        ({
            let mv = node_move(settings, x, y, m, dx, dy, old_dx, old_dy, c);
            let swinging = m.spec_mul(square(old_dx.spec_sub(dx)).spec_add(square(old_dy.spec_sub(dy))).spec_sqrt());
            let traction = square(old_dx.spec_add(dx)).spec_add(square(old_dy.spec_add(dy))).spec_sqrt();
            let swing = F::spec_one().spec_add(swinging.spec_sqrt());
            let raw_speed = c.spec_mul(traction.spec_div(two::<F>()).spec_ln_1p()).spec_div(swing);
            let speed = raw_speed.spec_div(settings.slow_down);
            &&& mv.x == x.spec_add(dx.spec_mul(speed))
            &&& mv.y == y.spec_add(dy.spec_mul(speed))
            &&& mv.movement == x.spec_sub(mv.x).spec_abs().spec_add(y.spec_sub(mv.y).spec_abs())
            &&& mv.convergence == raw_speed.spec_mul(square(dx).spec_add(square(dy)).spec_div(swing)).spec_sqrt().spec_min(
                F::spec_one(),
            )
        }),
{
}

/// The move of node `i`, read from the given per-node sequences.
pub open spec fn node_move_at<F: Float>(
    settings: FA2Settings<F>,
    xs: Seq<F>,
    ys: Seq<F>,
    ms: Seq<F>,
    delta_xs: Seq<F>,
    delta_ys: Seq<F>,
    old_delta_xs: Seq<F>,
    old_delta_ys: Seq<F>,
    convergences: Seq<F>,
    i: int,
) -> NodeMove<F> {
    node_move(
        settings,
        xs[i],
        ys[i],
        ms[i],
        delta_xs[i],
        delta_ys[i],
        old_delta_xs[i],
        old_delta_ys[i],
        convergences[i],
    )
}

/// The sum, from zero and in node order, of the movements of the first `k`
/// nodes.
pub open spec fn total_movement<F: Float>(
    settings: FA2Settings<F>,
    xs: Seq<F>,
    ys: Seq<F>,
    ms: Seq<F>,
    delta_xs: Seq<F>,
    delta_ys: Seq<F>,
    old_delta_xs: Seq<F>,
    old_delta_ys: Seq<F>,
    convergences: Seq<F>,
    k: nat,
) -> F
    decreases k,
{
    if k == 0 {
        F::spec_zero()
    } else {
        total_movement(
            settings,
            xs,
            ys,
            ms,
            delta_xs,
            delta_ys,
            old_delta_xs,
            old_delta_ys,
            convergences,
            (k - 1) as nat,
        ).spec_add(
            node_move_at(
                settings,
                xs,
                ys,
                ms,
                delta_xs,
                delta_ys,
                old_delta_xs,
                old_delta_ys,
                convergences,
                k - 1,
            ).movement,
        )
    }
}

/// Move a single node according to its deltas; return how far it moved.
pub fn apply_nodewise_forces<F: Float>(
    settings: &FA2Settings<F>,
    x: &mut F,
    y: &mut F,
    m: F,
    delta_x: F,
    delta_y: F,
    old_delta_x: F,
    old_delta_y: F,
    convergence: &mut F,
) -> (movement: F)
    ensures
        ({
            let mv = node_move(
                *settings,
                *old(x),
                *old(y),
                m,
                delta_x,
                delta_y,
                old_delta_x,
                old_delta_y,
                *old(convergence),
            );
            &&& *final(x) == mv.x
            &&& *final(y) == mv.y
            &&& *final(convergence) == mv.convergence
            &&& movement == mv.movement
        }),
{
    let two = F::from_usize(2);

    let mut swinging = m.mul(
        old_delta_x.sub(delta_x).powi(2).add(old_delta_y.sub(delta_y).powi(2)).sqrt(),
    );
    swinging = F::one().add(swinging.sqrt());

    let traction = old_delta_x.add(delta_x).powi(2).add(old_delta_y.add(delta_y).powi(2)).sqrt().div(
        two,
    );

    let mut speed = (*convergence).mul(traction.ln_1p()).div(swinging);

    // Updating convergence
    *convergence = speed.mul(delta_x.powi(2).add(delta_y.powi(2)).div(swinging)).sqrt().min(F::one());

    speed = speed.div(settings.slow_down);

    // Updating node position
    let old_x = *x;
    let old_y = *y;
    let new_x = old_x.add(delta_x.mul(speed));
    let new_y = old_y.add(delta_y.mul(speed));

    *x = new_x;
    *y = new_y;

    old_x.sub(new_x).abs().add(old_y.sub(new_y).abs())
}

/// Move every node according to its deltas (node `i` as
/// [`apply_nodewise_forces`] moves it) and return the sum of the
/// movements.
pub fn apply_forces<F: Float>(
    settings: &FA2Settings<F>,
    xs: &mut [F],
    ys: &mut [F],
    ms: &[F],
    delta_xs: &[F],
    delta_ys: &[F],
    old_delta_xs: &[F],
    old_delta_ys: &[F],
    convergences: &mut [F],
) -> (total: F)
    requires
        old(xs)@.len() >= old(convergences)@.len(),
        old(ys)@.len() >= old(convergences)@.len(),
        ms@.len() >= old(convergences)@.len(),
        delta_xs@.len() >= old(convergences)@.len(),
        delta_ys@.len() >= old(convergences)@.len(),
        old_delta_xs@.len() >= old(convergences)@.len(),
        old_delta_ys@.len() >= old(convergences)@.len(),
    ensures
        final(xs)@.len() == old(xs)@.len(),
        final(ys)@.len() == old(ys)@.len(),
        final(convergences)@.len() == old(convergences)@.len(),
        total == total_movement(
            *settings,
            old(xs)@,
            old(ys)@,
            ms@,
            delta_xs@,
            delta_ys@,
            old_delta_xs@,
            old_delta_ys@,
            old(convergences)@,
            old(convergences)@.len(),
        ),
        forall|i: int|
            0 <= i < old(convergences)@.len() ==> {
                let mv = node_move_at(
                    *settings,
                    old(xs)@,
                    old(ys)@,
                    ms@,
                    delta_xs@,
                    delta_ys@,
                    old_delta_xs@,
                    old_delta_ys@,
                    old(convergences)@,
                    i,
                );
                &&& #[trigger] final(xs)@[i] == mv.x
                &&& final(ys)@[i] == mv.y
                &&& final(convergences)@[i] == mv.convergence
            },
        forall|i: int|
            old(convergences)@.len() <= i < old(xs)@.len() ==> #[trigger] final(xs)@[i] == old(
                xs,
            )@[i],
        forall|i: int|
            old(convergences)@.len() <= i < old(ys)@.len() ==> #[trigger] final(ys)@[i] == old(
                ys,
            )@[i],
{
    let ghost xs0 = xs@;
    let ghost ys0 = ys@;
    let ghost cs0 = convergences@;
    let n = convergences.len();
    let mut total = F::zero();

    let mut i: usize = 0;
    while i < n
        invariant
            i <= n,
            n == cs0.len(),
            xs@.len() == xs0.len(),
            ys@.len() == ys0.len(),
            convergences@.len() == n,
            xs0.len() >= n,
            ys0.len() >= n,
            ms@.len() >= n,
            delta_xs@.len() >= n,
            delta_ys@.len() >= n,
            old_delta_xs@.len() >= n,
            old_delta_ys@.len() >= n,
            total == total_movement(
                *settings,
                xs0,
                ys0,
                ms@,
                delta_xs@,
                delta_ys@,
                old_delta_xs@,
                old_delta_ys@,
                cs0,
                i as nat,
            ),
            forall|k: int|
                0 <= k < i ==> {
                    let mv = node_move_at(
                        *settings,
                        xs0,
                        ys0,
                        ms@,
                        delta_xs@,
                        delta_ys@,
                        old_delta_xs@,
                        old_delta_ys@,
                        cs0,
                        k,
                    );
                    &&& #[trigger] xs@[k] == mv.x
                    &&& ys@[k] == mv.y
                    &&& convergences@[k] == mv.convergence
                },
            forall|k: int| i <= k < xs0.len() ==> #[trigger] xs@[k] == xs0[k],
            forall|k: int| i <= k < ys0.len() ==> #[trigger] ys@[k] == ys0[k],
            forall|k: int| i <= k < n ==> #[trigger] convergences@[k] == cs0[k],
        decreases n - i,
    {
        let mut x = xs[i];
        let mut y = ys[i];
        let mut c = convergences[i];
        let movement = apply_nodewise_forces(
            settings,
            &mut x,
            &mut y,
            ms[i],
            delta_xs[i],
            delta_ys[i],
            old_delta_xs[i],
            old_delta_ys[i],
            &mut c,
        );
        total = total.add(movement);
        xs[i] = x;
        ys[i] = y;
        convergences[i] = c;
        i += 1;
    }

    total
}

} // verus!
