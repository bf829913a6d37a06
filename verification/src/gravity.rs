use vstd::prelude::*;

use crate::settings::FA2Settings;
use crate::traits::{square, Float};

verus! {

/// The gravity coefficient of a node of mass `m` at `(x, y)`: zero at the
/// origin, else `scaling_ratio * m * (gravity / scaling_ratio)`, divided by
/// the node's distance to the origin unless gravity is strong.
pub open spec fn gravity_factor<F: Float>(settings: FA2Settings<F>, x: F, y: F, m: F) -> F {
    let g = settings.gravity.spec_div(settings.scaling_ratio);
    let distance = square(x).spec_add(square(y)).spec_sqrt();
    if F::spec_zero().spec_lt(distance) {
        let factor = settings.scaling_ratio.spec_mul(m).spec_mul(g);
        if !settings.strong_gravity_mode {
            factor.spec_div(distance)
        } else {
            factor
        }
    } else {
        F::spec_zero()
    }
}

/// The output `(out_x, out_y)` of a node after gravity pulled it toward the
/// origin.
pub open spec fn gravity_pull<F: Float>(
    settings: FA2Settings<F>,
    x: F,
    y: F,
    m: F,
    out_x: F,
    out_y: F,
) -> (F, F) {
    let factor = gravity_factor(settings, x, y, m);
    (out_x.spec_sub(x.spec_mul(factor)), out_y.spec_sub(y.spec_mul(factor)))
}

/// Gravity scales the mass by `scaling_ratio` and pulls with
/// `gravity / scaling_ratio`: a node's pull depends on its mass and on the
/// settings only through `scaling_ratio * m`, `gravity / scaling_ratio` and
/// whether gravity is strong. So two nodes at the same place get the same
/// pull whenever these agree, whatever their masses and ratios.
pub proof fn lemma_gravity_through_scaled_mass<F: Float>(
    s1: FA2Settings<F>,
    s2: FA2Settings<F>,
    x: F,
    y: F,
    m1: F,
    m2: F,
    out_x: F,
    out_y: F,
)
    requires
        s1.scaling_ratio.spec_mul(m1) == s2.scaling_ratio.spec_mul(m2),
        s1.gravity.spec_div(s1.scaling_ratio) == s2.gravity.spec_div(s2.scaling_ratio),
        s1.strong_gravity_mode == s2.strong_gravity_mode,
    ensures
        gravity_pull(s1, x, y, m1, out_x, out_y) == gravity_pull(s2, x, y, m2, out_x, out_y),
{
}

/// Gravity pulls a node straight toward the origin, and ordinary gravity
/// is strong gravity divided by the node's distance to the origin: with the
/// same settings but for the mode, a node away from the origin is pulled by
/// `(x, y) * f` under strong gravity and by `(x, y) * (f / distance)`
/// otherwise, for one and the same factor `f`.
pub proof fn lemma_gravity_weakens_with_distance<F: Float>(
    settings: FA2Settings<F>,
    x: F,
    y: F,
    m: F,
    out_x: F,
    out_y: F,
)
    requires
        !settings.strong_gravity_mode,
        F::spec_zero().spec_lt(square(x).spec_add(square(y)).spec_sqrt()),
    ensures
        exists|f: F|
            #![trigger x.spec_mul(f)]
            {
                let distance = square(x).spec_add(square(y)).spec_sqrt();
                let strong = FA2Settings { strong_gravity_mode: true, ..settings };
                &&& gravity_pull(strong, x, y, m, out_x, out_y) == (
                    out_x.spec_sub(x.spec_mul(f)),
                    out_y.spec_sub(y.spec_mul(f)),
                )
                &&& gravity_pull(settings, x, y, m, out_x, out_y) == (
                    out_x.spec_sub(x.spec_mul(f.spec_div(distance))),
                    out_y.spec_sub(y.spec_mul(f.spec_div(distance))),
                )
            },
{
    let f = settings.scaling_ratio.spec_mul(m).spec_mul(settings.gravity.spec_div(settings.scaling_ratio));
    let distance = square(x).spec_add(square(y)).spec_sqrt();
    let strong = FA2Settings { strong_gravity_mode: true, ..settings };
    assert(gravity_factor(strong, x, y, m) == f);
    assert(gravity_factor(settings, x, y, m) == f.spec_div(distance));
    assert(gravity_pull(strong, x, y, m, out_x, out_y) == (
        out_x.spec_sub(x.spec_mul(f)),
        out_y.spec_sub(y.spec_mul(f)),
    ));
}

/// Apply gravity to a single node of mass `m` at `(x, y)`.
pub fn apply_nodewise_gravity<F: Float>(
    settings: &FA2Settings<F>,
    x: F,
    y: F,
    m: F,
    out_x: &mut F,
    out_y: &mut F,
)
    ensures
        (*final(out_x), *final(out_y)) == gravity_pull(*settings, x, y, m, *old(out_x), *old(out_y)),
{
    let g = settings.gravity.div(settings.scaling_ratio);
    let mut factor = F::zero();

    let distance = x.powi(2).add(y.powi(2)).sqrt();

    if F::zero().lt(distance) {
        factor = settings.scaling_ratio.mul(m).mul(g);

        if !settings.strong_gravity_mode {
            factor = factor.div(distance);
        }
    }

    *out_x = (*out_x).sub(x.mul(factor));
    *out_y = (*out_y).sub(y.mul(factor));
}

/// Apply gravity to every node: node `i` is pulled toward the origin.
pub fn apply_gravity<F: Float>(
    settings: &FA2Settings<F>,
    xs: &[F],
    ys: &[F],
    ms: &[F],
    out_xs: &mut [F],
    out_ys: &mut [F],
)
    requires
        ys@.len() >= xs@.len(),
        ms@.len() >= xs@.len(),
        old(out_xs)@.len() >= xs@.len(),
        old(out_ys)@.len() >= xs@.len(),
    ensures
        final(out_xs)@.len() == old(out_xs)@.len(),
        final(out_ys)@.len() == old(out_ys)@.len(),
        forall|i: int|
            0 <= i < xs@.len() ==> (#[trigger] final(out_xs)@[i], final(out_ys)@[i]) == gravity_pull(
                *settings,
                xs@[i],
                ys@[i],
                ms@[i],
                old(out_xs)@[i],
                old(out_ys)@[i],
            ),
        forall|i: int| xs@.len() <= i < old(out_xs)@.len() ==> #[trigger] final(out_xs)@[i] == old(out_xs)@[i],
        forall|i: int| xs@.len() <= i < old(out_ys)@.len() ==> #[trigger] final(out_ys)@[i] == old(out_ys)@[i],
{
    let ghost out0 = (out_xs@, out_ys@);
    let mut i: usize = 0;
    while i < xs.len()
        invariant
            i <= xs@.len(),
            ys@.len() >= xs@.len(),
            ms@.len() >= xs@.len(),
            out_xs@.len() == out0.0.len(),
            out_ys@.len() == out0.1.len(),
            out0.0.len() >= xs@.len(),
            out0.1.len() >= xs@.len(),
            forall|k: int|
                0 <= k < i ==> (#[trigger] out_xs@[k], out_ys@[k]) == gravity_pull(
                    *settings,
                    xs@[k],
                    ys@[k],
                    ms@[k],
                    out0.0[k],
                    out0.1[k],
                ),
            forall|k: int| i <= k < out0.0.len() ==> #[trigger] out_xs@[k] == out0.0[k],
            forall|k: int| i <= k < out0.1.len() ==> #[trigger] out_ys@[k] == out0.1[k],
        decreases xs@.len() - i,
    {
        let mut out_x = out_xs[i];
        let mut out_y = out_ys[i];
        apply_nodewise_gravity(settings, xs[i], ys[i], ms[i], &mut out_x, &mut out_y);
        out_xs[i] = out_x;
        out_ys[i] = out_y;
        i += 1;
    }
}

} // verus!
