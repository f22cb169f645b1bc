//! The command protocol layer: every transaction on the 1-Wire bus begins
//! with an initialization sequence (reset pulse plus presence detection),
//! followed by an addressing command and a memory command.

use vstd::prelude::*;

use crate::bus::{Delay, Pin, low_samples, repeat_wait, reset_tail_events,
    reset_tail_waits, wait_for_high_events};
use crate::error::Ds18b20Error;
use crate::error::Error;
use crate::Driver;

pub mod memory;
pub mod rom;

verus! {

impl<T: Pin, U: Delay> Driver<T, U> {
    /// Initialization.
    ///
    /// All transactions on the 1-Wire bus begin with an initialization
    /// sequence: a reset pulse transmitted by the bus master followed by
    /// presence pulse(s) transmitted by the slave(s). The presence pulse lets
    /// the bus master know that a device is on the bus and ready to operate.
    /// Waits for the pull-up to raise the line, drives low for H, releases,
    /// samples presence after I (a low line means at least one device
    /// answered), and completes the slot after J. Absence of a presence
    /// pulse is reported as `Ok(false)`, not as an error.
    pub fn initialization(&mut self) -> (r: Result<bool, Error<T::Fault>>)
        ensures
            final(self).cfg() == old(self).cfg(),
            r matches Ok(presence) ==> exists|k: int|
                0 <= k < 125 && final(self).pin_hist() == old(self).pin_hist()
                    + wait_for_high_events(k) + reset_tail_events(presence) && final(self).delay_hist() == old(self).delay_hist() + repeat_wait(2_000, k)
                    + reset_tail_waits(old(self).cfg()),
            r matches Err(Error::Ds18b20(e)) ==> e == Ds18b20Error::BusNotHigh && final(self).pin_hist() == old(self).pin_hist() + low_samples(125) && final(self).delay_hist()
                == old(self).delay_hist() + repeat_wait(2_000, 125),
    {
        match self.wait_for_high() {
            Ok(()) => {},
            Err(e) => {
                return Err(e);
            },
        }
        let ghost k = choose|k: int|
            0 <= k < 125 && self.pin_hist() == old(self).pin_hist() + wait_for_high_events(k)
                && self.delay_hist() == old(self).delay_hist() + repeat_wait(2_000, k);
        match self.set_low() {
            Ok(()) => {},
            Err(e) => {
                return Err(e);
            },
        }
        let ns = self.configuration.h;
        self.delay(ns);
        match self.set_high() {
            Ok(()) => {},
            Err(e) => {
                return Err(e);
            },
        }
        let ns = self.configuration.i;
        self.delay(ns);
        let presence = match self.is_low() {
            Ok(low) => low,
            Err(e) => {
                return Err(e);
            },
        };
        let ns = self.configuration.j;
        self.delay(ns);
        proof {
            assert(self.pin_hist() =~= old(self).pin_hist() + wait_for_high_events(k)
                + reset_tail_events(presence));
            assert(self.delay_hist() =~= old(self).delay_hist() + repeat_wait(2_000, k)
                + reset_tail_waits(old(self).cfg()));
        }
        Ok(presence)
    }

    /// Waits up to 250 us for the bus to become high (from the pull-up
    /// resistor), sampling every 2 us; fails with `BusNotHigh` exactly when
    /// all 125 samples saw the line low.
    fn wait_for_high(&mut self) -> (r: Result<(), Error<T::Fault>>)
        ensures
            final(self).cfg() == old(self).cfg(),
            r is Ok ==> exists|k: int|
                0 <= k < 125 && final(self).pin_hist() == old(self).pin_hist()
                    + wait_for_high_events(k) && final(self).delay_hist() == old(self).delay_hist() + repeat_wait(2_000, k),
            r matches Err(Error::Ds18b20(e)) ==> e == Ds18b20Error::BusNotHigh && final(self).pin_hist() == old(self).pin_hist() + low_samples(125) && final(self).delay_hist()
                == old(self).delay_hist() + repeat_wait(2_000, 125),
    {
        let mut k: u8 = 0;
        proof {
            assert(old(self).pin_hist() + low_samples(0) =~= old(self).pin_hist());
            assert(old(self).delay_hist() + repeat_wait(2_000, 0) =~= old(self).delay_hist());
        }
        while k < 125
            invariant
                k <= 125,
                self.cfg() == old(self).cfg(),
                self.pin_hist() == old(self).pin_hist() + low_samples(k as int),
                self.delay_hist() == old(self).delay_hist() + repeat_wait(2_000, k as int),
            decreases 125 - k,
        {
            match self.is_high() {
                Ok(true) => {
                    proof {
                        assert(self.pin_hist() =~= old(self).pin_hist() + wait_for_high_events(
                            k as int,
                        ));
                    }
                    return Ok(());
                },
                Ok(false) => {},
                Err(e) => {
                    return Err(e);
                },
            }
            self.delay(2_000);
            k = k + 1;
        }
        Err(Error::Ds18b20(Ds18b20Error::BusNotHigh))
    }
}

} // verus!
