//! The classical fourth-order Runge-Kutta stepper (RK4): four staged
//! evaluations per time step, the middle two at half step, combined with
//! weights 1, 2, 2, 1 and divided by six.

use vstd::prelude::*;

verus! {

use crate::scalar::{frac_is, lemma_mul_bound, lemma_mul_pos, rat_add, rat_scale, rat_step, ratio,
    Frac};
use crate::var::Var;

/// The RK4 stepper.
pub struct Rk4;

impl Rk4 {
    /// The time step at which the given stage's derivatives are evaluated:
    /// half the step for the first two stages, the full step for the last
    /// two.
    pub fn stage_dt(stage: u32, dt: Frac) -> (r: Frac)
        requires
            stage < 4,
            dt.bounded(0x4000_0000),
        ensures
            stage <= 1 ==> frac_is(r, rat_scale(ratio(dt), 1, 2)),
            stage >= 2 ==> r == dt,
    {
        if stage <= 1 {
            dt.scaled(1, 2)
        } else {
            dt
        }
    }

    /// Applies one RK4 stage to one variable. Stage 0 saves the live value
    /// and derivative into the scratch slots and advances by half a step;
    /// stages 1 and 2 accumulate twice the fresh derivative and advance the
    /// saved value by half and a full step; stage 3 averages the accumulated
    /// derivatives by one sixth and advances the saved value by the full
    /// step. Every stage ends with the live derivative reset to zero.
    pub fn apply(stage: u32, v: &mut Var, dt: Frac)
        requires
            stage < 4,
            old(v).value.0.bounded(0x4000_0000),
            old(v).value.1.bounded(0x4000_0000),
            old(v).deriv.0.bounded(0x4000_0000),
            old(v).deriv.1.bounded(0x4000_0000),
            dt.bounded(0x4000_0000),
        ensures
            frac_is(final(v).deriv.0, (0, 1)),
            stage == 0 ==> {
                &&& final(v).value.1 == old(v).value.0
                &&& final(v).deriv.1 == old(v).deriv.0
                &&& frac_is(
                    final(v).value.0,
                    rat_step(
                        ratio(old(v).value.0),
                        ratio(old(v).deriv.0),
                        rat_scale(ratio(dt), 1, 2),
                    ),
                )
            },
            stage == 1 ==> {
                &&& final(v).value.1 == old(v).value.1
                &&& frac_is(
                    final(v).deriv.1,
                    rat_add(ratio(old(v).deriv.1), rat_scale(ratio(old(v).deriv.0), 2, 1)),
                )
                &&& frac_is(
                    final(v).value.0,
                    rat_step(
                        ratio(old(v).value.1),
                        ratio(old(v).deriv.0),
                        rat_scale(ratio(dt), 1, 2),
                    ),
                )
            },
            stage == 2 ==> {
                &&& final(v).value.1 == old(v).value.1
                &&& frac_is(
                    final(v).deriv.1,
                    rat_add(ratio(old(v).deriv.1), rat_scale(ratio(old(v).deriv.0), 2, 1)),
                )
                &&& frac_is(
                    final(v).value.0,
                    rat_step(ratio(old(v).value.1), ratio(old(v).deriv.0), ratio(dt)),
                )
            },
            stage == 3 ==> {
                &&& final(v).value.1 == old(v).value.1
                &&& frac_is(
                    final(v).deriv.1,
                    rat_scale(rat_add(ratio(old(v).deriv.1), ratio(old(v).deriv.0)), 1, 6),
                )
                &&& frac_is(
                    final(v).value.0,
                    rat_step(
                        ratio(old(v).value.1),
                        rat_scale(rat_add(ratio(old(v).deriv.1), ratio(old(v).deriv.0)), 1, 6),
                        ratio(dt),
                    ),
                )
            },
    {
        let dts = Rk4::stage_dt(stage, dt);
        if stage == 0 {
            v.value.1 = v.value.0;
            v.deriv.1 = v.deriv.0;
            v.value.0 = v.value.1.step(v.deriv.0, dts);
        } else if stage == 1 {
            v.deriv.1 = v.deriv.1.plus(v.deriv.0.scaled(2, 1));
            v.value.0 = v.value.1.step(v.deriv.0, dts);
        } else if stage == 2 {
            v.deriv.1 = v.deriv.1.plus(v.deriv.0.scaled(2, 1));
            v.value.0 = v.value.1.step(v.deriv.0, dts);
        } else {
            proof {
                lemma_mul_bound(
                    old(v).deriv.1.num as int,
                    old(v).deriv.0.den as int,
                    0x4000_0000,
                    0x4000_0000,
                );
                lemma_mul_bound(
                    old(v).deriv.0.num as int,
                    old(v).deriv.1.den as int,
                    0x4000_0000,
                    0x4000_0000,
                );
                lemma_mul_bound(
                    old(v).deriv.1.den as int,
                    old(v).deriv.0.den as int,
                    0x4000_0000,
                    0x4000_0000,
                );
            }
            let sdx = v.deriv.1.plus(v.deriv.0).scaled(1, 6);
            let x = v.value.1;
            proof {
                lemma_mul_bound(
                    sdx.den as int,
                    dts.den as int,
                    0x8000_0000_0000_0000,
                    0x4000_0000,
                );
                lemma_mul_bound(
                    x.num as int,
                    (sdx.den * dts.den) as int,
                    0x4000_0000,
                    0x2000_0000_0000_0000_0000_0000,
                );
                lemma_mul_bound(
                    sdx.num as int,
                    dts.num as int,
                    0x8000_0000_0000_0000,
                    0x4000_0000,
                );
                lemma_mul_bound(
                    (sdx.num * dts.num) as int,
                    x.den as int,
                    0x2000_0000_0000_0000_0000_0000,
                    0x4000_0000,
                );
                lemma_mul_bound(
                    x.den as int,
                    (sdx.den * dts.den) as int,
                    0x4000_0000,
                    0x2000_0000_0000_0000_0000_0000,
                );
                lemma_mul_pos(sdx.den as int, dts.den as int);
                lemma_mul_pos(x.den as int, sdx.den * dts.den);
            }
            let num = x.num * (sdx.den * dts.den) + sdx.num * dts.num * x.den;
            let den = x.den * (sdx.den * dts.den);
            v.value.0 = Frac { num, den };
            v.deriv.1 = sdx;
        }
        v.deriv.0 = Frac::zero();
    }
}

} // verus!
