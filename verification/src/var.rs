//! An independent variable of a differential-equation system: its current
//! value and accumulated derivative, each paired with the scratch slot the
//! staged solvers use between stages.

use vstd::prelude::*;

verus! {

use crate::scalar::{frac_is, rat_add, ratio, Frac};

/// An integrable variable: `value.0` and `deriv.0` are the live value and
/// derivative, `value.1` and `deriv.1` the solver's scratch storage.
#[derive(Clone, Copy, Debug)]
pub struct Var {
    pub value: (Frac, Frac),
    pub deriv: (Frac, Frac),
}

impl Var {
    /// A fresh variable holding `value`, with zero derivative and empty
    /// scratch storage.
    pub fn new(value: Frac) -> (v: Var)
        ensures
            v.value.0 == value,
            frac_is(v.value.1, (0, 1)),
            frac_is(v.deriv.0, (0, 1)),
            frac_is(v.deriv.1, (0, 1)),
    {
        Var { value: (value, Frac::zero()), deriv: (Frac::zero(), Frac::zero()) }
    }

    /// Consumes the variable, yielding its live value.
    pub fn into_value(self) -> (r: Frac)
        ensures
            r == self.value.0,
    {
        self.value.0
    }

    /// The live value.
    pub fn value(&self) -> (r: &Frac)
        ensures
            *r == self.value.0,
    {
        &self.value.0
    }

    /// Mutable access to the live value.
    pub fn value_mut(&mut self) -> (r: &mut Frac)
        ensures
            *r == old(self).value.0,
            final(self).value == ((*final(r), old(self).value.1)),
            final(self).deriv == old(self).deriv,
    {
        &mut self.value.0
    }

    /// Accumulates a contribution into the live derivative.
    pub fn add_deriv(&mut self, d: Frac)
        requires
            old(self).deriv.0.bounded(0x4000_0000_0000_0000),
            d.bounded(0x4000_0000_0000_0000),
        ensures
            frac_is(final(self).deriv.0, rat_add(ratio(old(self).deriv.0), ratio(d))),
            final(self).deriv.1 == old(self).deriv.1,
            final(self).value == old(self).value,
    {
        self.deriv.0 = self.deriv.0.plus(d);
    }

    /// The live derivative.
    pub fn deriv(&self) -> (r: &Frac)
        ensures
            *r == self.deriv.0,
    {
        &self.deriv.0
    }

    /// Mutable access to the live derivative.
    pub fn deriv_mut(&mut self) -> (r: &mut Frac)
        ensures
            *r == old(self).deriv.0,
            final(self).deriv == ((*final(r), old(self).deriv.1)),
            final(self).value == old(self).value,
    {
        &mut self.deriv.0
    }
}

} // verus!
