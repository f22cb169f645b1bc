//! Memory commands: temperature conversion, scratchpad read/write, and the
//! EEPROM save/restore operations.

use vstd::prelude::*;

use crate::bus::{Delay, Pin, false_read_slots, read_bytes_events, read_bytes_waits,
    read_slot_events, read_slots_waits, write_byte_waits, write_slots_events};
use crate::crc8::crc8_of;
use crate::error::Ds18b20Error;
use crate::error::Error;
use crate::scratchpad::{spec_resolution_byte, spec_resolution_of, spec_scratchpad, Scratchpad};
use crate::Driver;

verus! {

pub const COMMAND_MEMORY_CONVERT: u8 = 0x44;

pub const COMMAND_MEMORY_RECALL: u8 = 0xB8;

pub const COMMAND_MEMORY_POWER_SUPPLY_READ: u8 = 0xB4;

pub const COMMAND_MEMORY_SCRATCHPAD_COPY: u8 = 0x48;

pub const COMMAND_MEMORY_SCRATCHPAD_READ: u8 = 0xBE;

pub const COMMAND_MEMORY_SCRATCHPAD_WRITE: u8 = 0x4E;

/// One read slot lasts 70 us at standard speed; the recall poll budget is a
/// 10 ms ceiling divided by this, plus one.
pub const READ_SLOT_DURATION_MICROS: u16 = 70;

impl<T: Pin, U: Delay> Driver<T, U> {
    /// This command begins a temperature conversion. No further data is
    /// required. The caller must separately wait at least the
    /// resolution-dependent conversion time before reading the result; the
    /// engine does not enforce this wait.
    pub fn convert_temperature(&mut self) -> (r: Result<(), Error<T::Fault>>)
        ensures
            final(self).cfg() == old(self).cfg(),
            r is Ok ==> final(self).pin_hist() == old(self).pin_hist() + write_slots_events(8)
                && final(self).delay_hist() == old(self).delay_hist() + write_byte_waits(
                old(self).cfg(),
                COMMAND_MEMORY_CONVERT,
            ),
            r matches Err(e) ==> e is Pin,
    {
        self.write_byte(COMMAND_MEMORY_CONVERT)
    }

    /// Signals the mode of the device power supply to the master.
    /// A stub: it performs no bus activity and always succeeds.
    pub fn read_power_supply(&self) -> (r: Result<(), Error<T::Fault>>)
        ensures
            r is Ok,
    {
        Ok(())
    }

    /// Recalls values stored in nonvolatile memory (EEPROM) into the
    /// scratchpad. Polls read slots until the device reports ready (a 1
    /// bit) or the bounded retry budget of 143 slots is exhausted, which
    /// yields `Timeout`.
    pub fn recall_eeprom(&mut self) -> (r: Result<(), Error<T::Fault>>)
        ensures
            final(self).cfg() == old(self).cfg(),
            r is Ok ==> exists|k: int|
                0 <= k < 143 && final(self).pin_hist() == old(self).pin_hist()
                    + write_slots_events(8) + false_read_slots(k) + read_slot_events(true)
                    && final(self).delay_hist() == old(self).delay_hist() + write_byte_waits(
                    old(self).cfg(),
                    COMMAND_MEMORY_RECALL,
                ) + read_slots_waits(old(self).cfg(), k + 1),
            r matches Err(Error::Ds18b20(e)) ==> e == Ds18b20Error::Timeout && final(self).pin_hist() == old(self).pin_hist() + write_slots_events(8) + false_read_slots(143)
                && final(self).delay_hist() == old(self).delay_hist() + write_byte_waits(
                old(self).cfg(),
                COMMAND_MEMORY_RECALL,
            ) + read_slots_waits(old(self).cfg(), 143),
    {
        match self.write_byte(COMMAND_MEMORY_RECALL) {
            Ok(()) => {},
            Err(e) => {
                return Err(e);
            },
        }
        let ghost h1 = self.pin_hist();
        let ghost d1 = self.delay_hist();
        // wait for the recall to finish (up to 10ms)
        let max_retries: u16 = (10_000 / READ_SLOT_DURATION_MICROS) + 1;
        let mut k: u16 = 0;
        proof {
            assert(h1 + false_read_slots(0) =~= h1);
            assert(d1 + read_slots_waits(old(self).cfg(), 0) =~= d1);
        }
        while k < max_retries
            invariant
                k <= 143,
                max_retries == 143,
                self.cfg() == old(self).cfg(),
                self.pin_hist() == h1 + false_read_slots(k as int),
                self.delay_hist() == d1 + read_slots_waits(old(self).cfg(), k as int),
                h1 == old(self).pin_hist() + write_slots_events(8),
                d1 == old(self).delay_hist() + write_byte_waits(
                    old(self).cfg(),
                    COMMAND_MEMORY_RECALL,
                ),
            decreases max_retries - k,
        {
            match self.read_bit() {
                Ok(true) => {
                    proof {
                        assert(self.pin_hist() =~= old(self).pin_hist() + write_slots_events(8)
                            + false_read_slots(k as int) + read_slot_events(true));
                        assert(self.delay_hist() =~= old(self).delay_hist() + write_byte_waits(
                            old(self).cfg(),
                            COMMAND_MEMORY_RECALL,
                        ) + read_slots_waits(old(self).cfg(), k + 1));
                    }
                    return Ok(());
                },
                Ok(false) => {
                    proof {
                        assert(self.pin_hist() =~= h1 + false_read_slots(k + 1));
                        assert(self.delay_hist() =~= d1 + read_slots_waits(
                            old(self).cfg(),
                            k + 1,
                        ));
                    }
                },
                Err(e) => {
                    return Err(e);
                },
            }
            k = k + 1;
        }
        Err(Error::Ds18b20(Ds18b20Error::Timeout))
    }

    /// Copies the scratchpad into nonvolatile memory (EEPROM), then performs
    /// a fixed unconditional 10 ms delay to guarantee completion before any
    /// subsequent bus activity.
    pub fn copy_scratchpad(&mut self) -> (r: Result<(), Error<T::Fault>>)
        ensures
            final(self).cfg() == old(self).cfg(),
            r is Ok ==> final(self).pin_hist() == old(self).pin_hist() + write_slots_events(8)
                && final(self).delay_hist() == old(self).delay_hist() + write_byte_waits(
                old(self).cfg(),
                COMMAND_MEMORY_SCRATCHPAD_COPY,
            ).push(10_000_000u32),
            r matches Err(e) ==> e is Pin,
    {
        match self.write_byte(COMMAND_MEMORY_SCRATCHPAD_COPY) {
            Ok(()) => {},
            Err(e) => {
                return Err(e);
            },
        }
        // delay 10ms for the write to complete
        self.delay(10_000_000);
        Ok(())
    }

    /// Reads the 9 scratchpad bytes and decodes them, propagating
    /// checksum-mismatch and invalid-configuration conditions.
    pub fn read_scratchpad(&mut self) -> (r: Result<Scratchpad, Error<T::Fault>>)
        ensures
            final(self).cfg() == old(self).cfg(),
            r matches Ok(sp) ==> exists|bytes: Seq<u8>|
                #![auto]
                bytes.len() == 9 && crc8_of(bytes) == 0 && spec_resolution_of(bytes[4]) is Some
                    && sp == spec_scratchpad(bytes) && final(self).pin_hist() == old(self).pin_hist() + write_slots_events(8) + read_bytes_events(bytes) && final(self).delay_hist() == old(self).delay_hist() + write_byte_waits(
                    old(self).cfg(),
                    COMMAND_MEMORY_SCRATCHPAD_READ,
                ) + read_bytes_waits(old(self).cfg(), 9),
            r matches Err(Error::Ds18b20(e)) ==> exists|bytes: Seq<u8>|
                #![auto]
                bytes.len() == 9 && (if crc8_of(bytes) != 0 {
                    e == (Ds18b20Error::UnexpectedCrc { crc8: crc8_of(bytes) })
                } else {
                    spec_resolution_of(bytes[4]) is None && e == (
                    Ds18b20Error::UnexpectedConfigurationRegister {
                        configuration_register: bytes[4],
                    })
                }) && final(self).pin_hist() == old(self).pin_hist() + write_slots_events(8)
                    + read_bytes_events(bytes) && final(self).delay_hist() == old(self).delay_hist() + write_byte_waits(old(self).cfg(), COMMAND_MEMORY_SCRATCHPAD_READ)
                    + read_bytes_waits(old(self).cfg(), 9),
    {
        match self.write_byte(COMMAND_MEMORY_SCRATCHPAD_READ) {
            Ok(()) => {},
            Err(e) => {
                return Err(e);
            },
        }
        let bytes = match self.read_bytes(9) {
            Ok(bytes) => bytes,
            Err(e) => {
                return Err(e);
            },
        };
        let array: [u8; 9] = [
            bytes[0],
            bytes[1],
            bytes[2],
            bytes[3],
            bytes[4],
            bytes[5],
            bytes[6],
            bytes[7],
            bytes[8],
        ];
        proof {
            assert(array@ =~= bytes@);
        }
        match Scratchpad::try_from_bytes(array) {
            Ok(scratchpad) => Ok(scratchpad),
            Err(e) => Err(Error::Ds18b20(e)),
        }
    }

    /// Writes the three writable scratchpad bytes: high trigger, low
    /// trigger, configuration register, in that fixed order.
    pub fn write_scratchpad(&mut self, scratchpad: Scratchpad) -> (r: Result<
        (),
        Error<T::Fault>,
    >)
        ensures
            final(self).cfg() == old(self).cfg(),
            r is Ok ==> final(self).pin_hist() == old(self).pin_hist() + write_slots_events(32)
                && final(self).delay_hist() == old(self).delay_hist() + write_byte_waits(
                old(self).cfg(),
                COMMAND_MEMORY_SCRATCHPAD_WRITE,
            ) + write_byte_waits(old(self).cfg(), scratchpad.triggers.high as u8)
                + write_byte_waits(old(self).cfg(), scratchpad.triggers.low as u8)
                + write_byte_waits(
                old(self).cfg(),
                spec_resolution_byte(scratchpad.configuration_register.resolution),
            ),
            r matches Err(e) ==> e is Pin,
    {
        match self.write_byte(COMMAND_MEMORY_SCRATCHPAD_WRITE) {
            Ok(()) => {},
            Err(e) => {
                return Err(e);
            },
        }
        match self.write_byte(scratchpad.triggers.high as u8) {
            Ok(()) => {},
            Err(e) => {
                return Err(e);
            },
        }
        match self.write_byte(scratchpad.triggers.low as u8) {
            Ok(()) => {},
            Err(e) => {
                return Err(e);
            },
        }
        let configuration = scratchpad.configuration_register.to_byte();
        match self.write_byte(configuration) {
            Ok(()) => {},
            Err(e) => {
                return Err(e);
            },
        }
        proof {
            crate::bus::lemma_write_slots_events_add(8, 8);
            crate::bus::lemma_write_slots_events_add(16, 8);
            crate::bus::lemma_write_slots_events_add(24, 8);
            assert(self.pin_hist() =~= old(self).pin_hist() + write_slots_events(32));
        }
        Ok(())
    }
}

/// This command begins a temperature conversion. No further data is
/// required. While busy the device answers read slots with 0 and reports a
/// 1 once the conversion is complete. The caller should wait for the
/// resolution-dependent conversion time before reading the measurement.
#[derive(Clone, Copy, Debug, PartialEq, Eq, Structural)]
pub struct ConvertTemperature;

impl ConvertTemperature {
    pub fn execute<T: Pin, U: Delay>(&self, driver: &mut Driver<T, U>) -> (r: Result<
        (),
        Error<T::Fault>,
    >)
        ensures
            final(driver).cfg() == old(driver).cfg(),
            r is Ok ==> final(driver).pin_hist() == old(driver).pin_hist() + write_slots_events(8)
                && final(driver).delay_hist() == old(driver).delay_hist() + write_byte_waits(
                old(driver).cfg(),
                COMMAND_MEMORY_CONVERT,
            ),
            r matches Err(e) ==> e is Pin,
    {
        driver.convert_temperature()
    }
}

/// Signals the mode of the device power supply to the master.
#[derive(Clone, Copy, Debug, PartialEq, Eq, Structural)]
pub enum ReadPowerSupply {
    /// Signals the mode of the device power supply to the master.
    Read,
}

impl ReadPowerSupply {
    /// A stub: it performs no bus activity and always succeeds.
    pub fn execute<T: Pin, U: Delay>(&self, driver: &Driver<T, U>) -> (r: Result<
        (),
        Error<T::Fault>,
    >)
        ensures
            r is Ok,
    {
        driver.read_power_supply()
    }
}

/// Recalls values stored in nonvolatile memory (EEPROM) into the
/// scratchpad (temperature triggers and configuration).
#[derive(Clone, Copy, Debug, PartialEq, Eq, Structural)]
pub struct RecallE2;

impl RecallE2 {
    pub fn execute<T: Pin, U: Delay>(&self, driver: &mut Driver<T, U>) -> (r: Result<
        (),
        Error<T::Fault>,
    >)
        ensures
            final(driver).cfg() == old(driver).cfg(),
            r is Ok ==> exists|k: int|
                0 <= k < 143 && final(driver).pin_hist() == old(driver).pin_hist()
                    + write_slots_events(8) + false_read_slots(k) + read_slot_events(true)
                    && final(driver).delay_hist() == old(driver).delay_hist() + write_byte_waits(
                    old(driver).cfg(),
                    COMMAND_MEMORY_RECALL,
                ) + read_slots_waits(old(driver).cfg(), k + 1),
            r matches Err(Error::Ds18b20(e)) ==> e == Ds18b20Error::Timeout && final(driver).pin_hist() == old(driver).pin_hist() + write_slots_events(8) + false_read_slots(143)
                && final(driver).delay_hist() == old(driver).delay_hist() + write_byte_waits(
                old(driver).cfg(),
                COMMAND_MEMORY_RECALL,
            ) + read_slots_waits(old(driver).cfg(), 143),
    {
        driver.recall_eeprom()
    }
}

/// Copies the scratchpad into nonvolatile memory (EEPROM) (addresses 2
/// through 4 only), then waits 10 ms for the write to complete.
#[derive(Clone, Copy, Debug, PartialEq, Eq, Structural)]
pub struct CopyScratchpad;

impl CopyScratchpad {
    pub fn execute<T: Pin, U: Delay>(&self, driver: &mut Driver<T, U>) -> (r: Result<
        (),
        Error<T::Fault>,
    >)
        ensures
            final(driver).cfg() == old(driver).cfg(),
            r is Ok ==> final(driver).pin_hist() == old(driver).pin_hist() + write_slots_events(8)
                && final(driver).delay_hist() == old(driver).delay_hist() + write_byte_waits(
                old(driver).cfg(),
                COMMAND_MEMORY_SCRATCHPAD_COPY,
            ).push(10_000_000u32),
            r matches Err(e) ==> e is Pin,
    {
        driver.copy_scratchpad()
    }
}

/// Reads the scratchpad bytes and the CRC byte, decoding them into a
/// [`Scratchpad`].
#[derive(Clone, Copy, Debug, PartialEq, Eq, Structural)]
pub struct ReadScratchpad;

impl ReadScratchpad {
    pub fn execute<T: Pin, U: Delay>(&self, driver: &mut Driver<T, U>) -> (r: Result<
        Scratchpad,
        Error<T::Fault>,
    >)
        ensures
            final(driver).cfg() == old(driver).cfg(),
            r matches Ok(sp) ==> exists|bytes: Seq<u8>|
                #![auto]
                bytes.len() == 9 && crc8_of(bytes) == 0 && spec_resolution_of(bytes[4]) is Some
                    && sp == spec_scratchpad(bytes) && final(driver).pin_hist() == old(driver).pin_hist() + write_slots_events(8) + read_bytes_events(bytes) && final(driver).delay_hist() == old(driver).delay_hist() + write_byte_waits(
                    old(driver).cfg(),
                    COMMAND_MEMORY_SCRATCHPAD_READ,
                ) + read_bytes_waits(old(driver).cfg(), 9),
            r matches Err(Error::Ds18b20(e)) ==> exists|bytes: Seq<u8>|
                #![auto]
                bytes.len() == 9 && (if crc8_of(bytes) != 0 {
                    e == (Ds18b20Error::UnexpectedCrc { crc8: crc8_of(bytes) })
                } else {
                    spec_resolution_of(bytes[4]) is None && e == (
                    Ds18b20Error::UnexpectedConfigurationRegister {
                        configuration_register: bytes[4],
                    })
                }) && final(driver).pin_hist() == old(driver).pin_hist() + write_slots_events(8)
                    + read_bytes_events(bytes) && final(driver).delay_hist() == old(driver).delay_hist() + write_byte_waits(old(driver).cfg(), COMMAND_MEMORY_SCRATCHPAD_READ)
                    + read_bytes_waits(old(driver).cfg(), 9),
    {
        driver.read_scratchpad()
    }
}

/// Writes the three writable scratchpad bytes (TH and TL temperature
/// triggers and the configuration register) from the carried image.
#[derive(Clone, Copy, Debug, PartialEq, Eq, Structural)]
pub struct WriteScratchpad {
    pub scratchpad: Scratchpad,
}

impl WriteScratchpad {
    pub fn execute<T: Pin, U: Delay>(&self, driver: &mut Driver<T, U>) -> (r: Result<
        (),
        Error<T::Fault>,
    >)
        ensures
            final(driver).cfg() == old(driver).cfg(),
            r is Ok ==> final(driver).pin_hist() == old(driver).pin_hist() + write_slots_events(
                32,
            ) && final(driver).delay_hist() == old(driver).delay_hist() + write_byte_waits(
                old(driver).cfg(),
                COMMAND_MEMORY_SCRATCHPAD_WRITE,
            ) + write_byte_waits(old(driver).cfg(), self.scratchpad.triggers.high as u8)
                + write_byte_waits(old(driver).cfg(), self.scratchpad.triggers.low as u8)
                + write_byte_waits(
                old(driver).cfg(),
                spec_resolution_byte(self.scratchpad.configuration_register.resolution),
            ),
            r matches Err(e) ==> e is Pin,
    {
        driver.write_scratchpad(self.scratchpad)
    }
}

/// Two commands in sequence.
#[derive(Clone, Copy, Debug, PartialEq, Eq, Structural)]
pub struct And<T, U>(pub T, pub U);

} // verus!
