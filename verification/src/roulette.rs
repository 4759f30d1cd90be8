//! Weight-cutoff Russian roulette.
//!
//! A surviving particle whose weight has dropped below the cutoff continues at
//! the survivor weight with probability `weight / weight_survive`, or is ended.
//! The expected weight is unchanged.
use crate::ieee::Real;
use vstd::prelude::*;

verus! {

/// Weight after roulette: the survivor weight when the uniform falls below the
/// survival probability, zero otherwise.
pub open spec fn rouletted(survival: Real, weight_survive: Real, xi: Real) -> Real {
    if xi.lt(survival) {
        weight_survive
    } else {
        Real { bits: 0 }
    }
}

/// Roulette in the form of the device kernel: a zero that is replaced on
/// survival. `survival` is the quotient `weight / weight_survive`.
pub fn weight_cutoff_roulette(survival: Real, weight_survive: Real, xi: Real) -> (r: Real)
    ensures
        r == rouletted(survival, weight_survive, xi),
{
    let mut out: Real = Real::zero();
    if xi.is_lt(survival) {
        out = weight_survive;
    }
    out
}

/// Roulette of the host transport.
pub fn weight_cutoff_roulette_cpu(survival: Real, weight_survive: Real, xi: Real) -> (r: Real)
    ensures
        r == rouletted(survival, weight_survive, xi),
{
    if xi.is_lt(survival) {
        weight_survive
    } else {
        Real::zero()
    }
}

/// Whether a particle is put to roulette: implicit capture is on, it has
/// survived the collision, and its weight is below the cutoff.
pub fn needs_roulette(enabled: bool, alive: bool, weight: Real, cutoff: Real) -> (r: bool)
    ensures
        r == (enabled && alive && weight.lt(cutoff)),
{
    enabled && alive && weight.is_lt(cutoff)
}

/// Survivors among a series of draws.
pub open spec fn survivors(survival: Real, draws: Seq<Real>) -> nat
    decreases draws.len(),
{
    if draws.len() == 0 {
        0
    } else {
        survivors(survival, draws.drop_last()) + if draws.last().lt(survival) {
            1nat
        } else {
            0nat
        }
    }
}

/// Total weight that a series of draws hands on, in units of the smallest
/// subnormal.
pub open spec fn weight_handed_on(survival: Real, weight_survive: Real, draws: Seq<Real>) -> int
    decreases draws.len(),
{
    if draws.len() == 0 {
        0
    } else {
        weight_handed_on(survival, weight_survive, draws.drop_last()) + rouletted(
            survival,
            weight_survive,
            draws.last(),
        ).scaled_value()
    }
}

/// Roulette hands on the survivor weight once per survivor and nothing else, so
/// over draws of which the fraction `weight / weight_survive` survives the
/// total weight is unchanged.
pub proof fn roulette_weight_is_survivors_times_weight(
    survival: Real,
    weight_survive: Real,
    draws: Seq<Real>,
)
    ensures
        weight_handed_on(survival, weight_survive, draws) == survivors(survival, draws)
            * weight_survive.scaled_value(),
    decreases draws.len(),
{
    let w = weight_survive.scaled_value();
    if draws.len() > 0 {
        roulette_weight_is_survivors_times_weight(survival, weight_survive, draws.drop_last());
        assert((Real { bits: 0 }).scaled_value() == 0) by {
            vstd::arithmetic::div_mod::lemma_small_mod(0, crate::ieee::BINADE as nat);
        }
        let n = survivors(survival, draws.drop_last());
        assert((n + 1) * w == n * w + w) by (nonlinear_arith);
    } else {
        assert(0 * w == 0) by (nonlinear_arith);
    }
}

/// A draw below the survival probability leaves the survival weight, any other
/// leaves nothing, the same in both kinds of run.
pub proof fn a_draw_decides_survival(survival: Real, weight_survive: Real, xi: Real, r: Real, c: Real)
    requires
        call_ensures(weight_cutoff_roulette, (survival, weight_survive, xi), r),
        call_ensures(weight_cutoff_roulette_cpu, (survival, weight_survive, xi), c),
    ensures
        xi.lt(survival) ==> r == weight_survive,
        !xi.lt(survival) ==> r.bits == 0,
        c == r,
{
}

/// Roulette is played for a living particle below the cutoff where it is switched
/// on, and for no other.
pub proof fn roulette_is_for_light_particles(
    enabled: bool,
    alive: bool,
    weight: Real,
    cutoff: Real,
    r: bool,
)
    requires
        call_ensures(needs_roulette, (enabled, alive, weight, cutoff), r),
    ensures
        !enabled ==> !r,
        !alive ==> !r,
        !weight.lt(cutoff) ==> !r,
        enabled && alive && weight.lt(cutoff) ==> r,
{
}

} // verus!
