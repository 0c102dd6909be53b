//! Euler's method for solving differential equations: the simplest stepper,
//! advancing each variable by its current derivative times the time step.

use vstd::prelude::*;

verus! {

use crate::scalar::{frac_is, rat_step, ratio, Frac};
use crate::var::Var;

/// The explicit Euler stepper.
pub struct Euler;

impl Euler {
    /// Advances one variable by one Euler step: the live value becomes
    /// `value + deriv * dt` and the live derivative is reset to zero; the
    /// scratch storage is untouched.
    pub fn apply(v: &mut Var, dt: Frac)
        requires
            old(v).value.0.bounded(0x100_0000_0000),
            old(v).deriv.0.bounded(0x100_0000_0000),
            dt.bounded(0x100_0000_0000),
        ensures
            frac_is(
                final(v).value.0,
                rat_step(ratio(old(v).value.0), ratio(old(v).deriv.0), ratio(dt)),
            ),
            frac_is(final(v).deriv.0, (0, 1)),
            final(v).value.1 == old(v).value.1,
            final(v).deriv.1 == old(v).deriv.1,
    {
        v.value.0 = v.value.0.step(v.deriv.0, dt);
        v.deriv.0 = Frac::zero();
    }
}

} // verus!
