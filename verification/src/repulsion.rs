use vstd::prelude::*;

use crate::settings::FA2Settings;
use crate::traits::{square, Float};

verus! {

/// The distance between two points, from their coordinate differences.
pub open spec fn distance<F: Float>(x_dist: F, y_dist: F) -> F {
    square(x_dist).spec_add(square(y_dist)).spec_sqrt()
}

/// The repulsion coefficient between masses `m1` and `m2` at distance `d`:
/// `scaling_ratio * m1 * m2 / d / d`.
pub open spec fn repulsion_factor<F: Float>(settings: FA2Settings<F>, m1: F, m2: F, d: F) -> F {
    settings.scaling_ratio.spec_mul(m1).spec_mul(m2).spec_div(d).spec_div(d)
}

/// The output `(out_x, out_y)` of a node of mass `m1` at `(x1, y1)` after
/// the repulsion of a node of mass `m2` at `(x2, y2)`; nothing changes when
/// the two nodes do not stand apart.
pub open spec fn repulsion_push<F: Float>(
    settings: FA2Settings<F>,
    x1: F,
    y1: F,
    m1: F,
    x2: F,
    y2: F,
    m2: F,
    out: (F, F),
) -> (F, F) {
    let x_dist = x1.spec_sub(x2);
    let y_dist = y1.spec_sub(y2);
    let d = distance(x_dist, y_dist);
    if F::spec_zero().spec_lt(d) {
        let factor = repulsion_factor(settings, m1, m2, d);
        (out.0.spec_add(x_dist.spec_mul(factor)), out.1.spec_add(y_dist.spec_mul(factor)))
    } else {
        out
    }
}

/// The output of a node after the repulsion of the first `k` nodes, in order.
pub open spec fn nodewise_repulsion<F: Float>(
    settings: FA2Settings<F>,
    x1: F,
    y1: F,
    m1: F,
    xs: Seq<F>,
    ys: Seq<F>,
    ms: Seq<F>,
    k: nat,
    out: (F, F),
) -> (F, F)
    decreases k,
{
    if k == 0 {
        out
    } else {
        let j = k - 1;
        repulsion_push(
            settings,
            x1,
            y1,
            m1,
            xs[j],
            ys[j],
            ms[j],
            nodewise_repulsion(settings, x1, y1, m1, xs, ys, ms, j as nat, out),
        )
    }
}

/// The outputs after the repulsion between nodes `n1` and `n2`: `n1` gains
/// what `n2` loses.
pub open spec fn pair_repulsion<F: Float>(
    settings: FA2Settings<F>,
    xs: Seq<F>,
    ys: Seq<F>,
    ms: Seq<F>,
    out: (Seq<F>, Seq<F>),
    n1: int,
    n2: int,
) -> (Seq<F>, Seq<F>) {
    let x_dist = xs[n1].spec_sub(xs[n2]);
    let y_dist = ys[n1].spec_sub(ys[n2]);
    let d = distance(x_dist, y_dist);
    if F::spec_zero().spec_lt(d) {
        let factor = repulsion_factor(settings, ms[n1], ms[n2], d);
        let dx = x_dist.spec_mul(factor);
        let dy = y_dist.spec_mul(factor);
        let out_x = out.0.update(n1, out.0[n1].spec_add(dx));
        let out_y = out.1.update(n1, out.1[n1].spec_add(dy));
        (out_x.update(n2, out_x[n2].spec_sub(dx)), out_y.update(n2, out_y[n2].spec_sub(dy)))
    } else {
        out
    }
}

/// The outputs after the pairs `(n1, n1 + 1), ..., (n1, k - 1)`, in order.
pub open spec fn repulsion_row<F: Float>(
    settings: FA2Settings<F>,
    xs: Seq<F>,
    ys: Seq<F>,
    ms: Seq<F>,
    out: (Seq<F>, Seq<F>),
    n1: int,
    k: int,
) -> (Seq<F>, Seq<F>)
    decreases k - n1,
{
    if k <= n1 + 1 {
        out
    } else {
        pair_repulsion(
            settings,
            xs,
            ys,
            ms,
            repulsion_row(settings, xs, ys, ms, out, n1, k - 1),
            n1,
            k - 1,
        )
    }
}

/// The outputs after every pair `(n1, n2)` with `n1 < r` and `n1 < n2 <
/// xs.len()`, in lexicographic order.
pub open spec fn repulsion_rows<F: Float>(
    settings: FA2Settings<F>,
    xs: Seq<F>,
    ys: Seq<F>,
    ms: Seq<F>,
    out: (Seq<F>, Seq<F>),
    r: int,
) -> (Seq<F>, Seq<F>)
    decreases r,
{
    if r <= 0 {
        out
    } else {
        repulsion_row(
            settings,
            xs,
            ys,
            ms,
            repulsion_rows(settings, xs, ys, ms, out, r - 1),
            r - 1,
            xs.len() as int,
        )
    }
}

/// Apply to one node of mass `m1` at `(x1, y1)` the repulsion of every node
/// of `xs`, `ys`, `ms` (a node at the same position exerts none).
pub fn apply_nodewise_repulsion<F: Float>(
    settings: &FA2Settings<F>,
    x1: F,
    y1: F,
    m1: F,
    xs: &[F],
    ys: &[F],
    ms: &[F],
    out_x: &mut F,
    out_y: &mut F,
)
    requires
        ys@.len() >= xs@.len(),
        ms@.len() >= xs@.len(),
    ensures
        (*final(out_x), *final(out_y)) == nodewise_repulsion(
            *settings,
            x1,
            y1,
            m1,
            xs@,
            ys@,
            ms@,
            xs@.len(),
            (*old(out_x), *old(out_y)),
        ),
{
    let order = xs.len();
    let ghost out0 = (*out_x, *out_y);

    let mut n: usize = 0;
    while n < order
        invariant
            n <= order,
            order == xs@.len(),
            ys@.len() >= xs@.len(),
            ms@.len() >= xs@.len(),
            (*out_x, *out_y) == nodewise_repulsion(
                *settings,
                x1,
                y1,
                m1,
                xs@,
                ys@,
                ms@,
                n as nat,
                out0,
            ),
        decreases order - n,
    {
        let x2 = xs[n];
        let y2 = ys[n];
        let m2 = ms[n];

        let x_dist = x1.sub(x2);
        let y_dist = y1.sub(y2);

        let distance = x_dist.powi(2).add(y_dist.powi(2)).sqrt();

        if F::zero().lt(distance) {
            let factor = settings.scaling_ratio.mul(m1).mul(m2).div(distance).div(distance);

            *out_x = (*out_x).add(x_dist.mul(factor));
            *out_y = (*out_y).add(y_dist.mul(factor));
        }
        n += 1;
    }
}

/// Apply the repulsion between every pair of nodes: for each pair `(n1,
/// n2)` with `n1 < n2`, in lexicographic order, `n1` is pushed away from
/// `n2` and `n2` by the opposite amount.
pub fn apply_pairwise_repulsion<F: Float>(
    settings: &FA2Settings<F>,
    xs: &[F],
    ys: &[F],
    ms: &[F],
    out_xs: &mut [F],
    out_ys: &mut [F],
)
    requires
        ys@.len() >= xs@.len(),
        ms@.len() >= xs@.len(),
        old(out_xs)@.len() >= xs@.len(),
        old(out_ys)@.len() >= xs@.len(),
    ensures
        final(out_xs)@.len() == old(out_xs)@.len(),
        final(out_ys)@.len() == old(out_ys)@.len(),
        (final(out_xs)@, final(out_ys)@) == repulsion_rows(
            *settings,
            xs@,
            ys@,
            ms@,
            (old(out_xs)@, old(out_ys)@),
            xs@.len() as int,
        ),
{
    let order = xs.len();
    let ghost out0 = (out_xs@, out_ys@);

    let mut n1: usize = 0;
    while n1 < order
        invariant
            n1 <= order,
            order == xs@.len(),
            ys@.len() >= xs@.len(),
            ms@.len() >= xs@.len(),
            out_xs@.len() == out0.0.len(),
            out_ys@.len() == out0.1.len(),
            out0.0.len() >= xs@.len(),
            out0.1.len() >= xs@.len(),
            (out_xs@, out_ys@) == repulsion_rows(*settings, xs@, ys@, ms@, out0, n1 as int),
        decreases order - n1,
    {
        let x1 = xs[n1];
        let y1 = ys[n1];
        let m1 = ms[n1];
        let ghost row_start = (out_xs@, out_ys@);

        let mut n2: usize = n1 + 1;
        while n2 < order
            invariant
                n1 < n2 <= order,
                order == xs@.len(),
                ys@.len() >= xs@.len(),
                ms@.len() >= xs@.len(),
                out_xs@.len() == out0.0.len(),
                out_ys@.len() == out0.1.len(),
                out0.0.len() >= xs@.len(),
                out0.1.len() >= xs@.len(),
                x1 == xs@[n1 as int],
                y1 == ys@[n1 as int],
                m1 == ms@[n1 as int],
                row_start == repulsion_rows(*settings, xs@, ys@, ms@, out0, n1 as int),
                (out_xs@, out_ys@) == repulsion_row(
                    *settings,
                    xs@,
                    ys@,
                    ms@,
                    row_start,
                    n1 as int,
                    n2 as int,
                ),
            decreases order - n2,
        {
            let x2 = xs[n2];
            let y2 = ys[n2];
            let m2 = ms[n2];

            let x_dist = x1.sub(x2);
            let y_dist = y1.sub(y2);

            let distance = x_dist.powi(2).add(y_dist.powi(2)).sqrt();

            if F::zero().lt(distance) {
                let factor = settings.scaling_ratio.mul(m1).mul(m2).div(distance).div(distance);

                out_xs[n1] = out_xs[n1].add(x_dist.mul(factor));
                out_ys[n1] = out_ys[n1].add(y_dist.mul(factor));

                out_xs[n2] = out_xs[n2].sub(x_dist.mul(factor));
                out_ys[n2] = out_ys[n2].sub(y_dist.mul(factor));
            }
            n2 += 1;
        }
        n1 += 1;
    }
}

} // verus!
