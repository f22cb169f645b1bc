//! Whole-bus transactions: each device operation is a strictly linear
//! sequence, an initialization handshake, an addressing step that either
//! matches one specific address or skips addressing to broadcast, the
//! memory command, and an optional completion wait or payload exchange.

use vstd::prelude::*;

use crate::bus::{false_read_slots, low_samples, read_bytes_events, read_bytes_waits, read_slot_events,
    read_slots_waits, repeat_wait, reset_tail_events, reset_tail_waits, wait_for_high_events,
    write_byte_waits, write_bytes_waits, write_slots_events, Delay, Pin, PinEvent};
use crate::commands::memory::{COMMAND_MEMORY_CONVERT, COMMAND_MEMORY_RECALL,
    COMMAND_MEMORY_SCRATCHPAD_COPY, COMMAND_MEMORY_SCRATCHPAD_READ,
    COMMAND_MEMORY_SCRATCHPAD_WRITE};
use crate::commands::rom::{COMMAND_ROM_MATCH, COMMAND_ROM_SKIP};
use crate::configuration::Configuration;
use crate::crc8::crc8_of;
use crate::error::Ds18b20Error;
use crate::error::Error;
use crate::rom::{rom_to_bytes, Rom};
use crate::scratchpad::{spec_resolution_byte, spec_resolution_of, spec_scratchpad, Scratchpad};
use crate::Driver;

verus! {

/// The pin actions of the addressing step: a match command and the 8
/// address bytes, or the single skip command.
pub open spec fn addressing_events(rom: Option<Rom>) -> Seq<PinEvent> {
    if rom is Some {
        write_slots_events(72)
    } else {
        write_slots_events(8)
    }
}

/// The waits of the addressing step.
pub open spec fn addressing_waits(c: Configuration, rom: Option<Rom>) -> Seq<u32> {
    match rom {
        Some(rom) => write_byte_waits(c, COMMAND_ROM_MATCH) + write_bytes_waits(
            c,
            rom_to_bytes(rom),
        ),
        None => write_byte_waits(c, COMMAND_ROM_SKIP),
    }
}

/// The pin actions of a whole transaction preamble: the wait for the
/// pull-up, the reset tail, and, when a device was present, the
/// addressing step.
pub open spec fn preamble_events(k: int, presence: bool, rom: Option<Rom>) -> Seq<PinEvent> {
    wait_for_high_events(k) + reset_tail_events(presence) + (if presence {
        addressing_events(rom)
    } else {
        Seq::empty()
    })
}

/// The waits of a whole transaction preamble.
pub open spec fn preamble_waits(c: Configuration, k: int, presence: bool, rom: Option<Rom>) -> Seq<
    u32,
> {
    repeat_wait(2_000, k) + reset_tail_waits(c) + (if presence {
        addressing_waits(c, rom)
    } else {
        Seq::empty()
    })
}

/// A transaction preamble: if `rom` is `None` the following command is
/// broadcast to all devices simultaneously; otherwise it addresses the one
/// device with this address.
#[derive(Clone, Copy, Debug, Default)]
pub struct Transaction {
    pub rom: Option<Rom>,
}

impl Transaction {
    /// Performs the initialization handshake and, when a device answered
    /// with a presence pulse, the addressing step: match this transaction's
    /// address, or skip addressing to broadcast. Returns whether a device
    /// was present; absence performs no addressing and is not an error.
    pub fn address<T: Pin, U: Delay>(&self, driver: &mut Driver<T, U>) -> (r: Result<
        bool,
        Error<T::Fault>,
    >)
        ensures
            final(driver).cfg() == old(driver).cfg(),
            r matches Ok(presence) ==> exists|k: int|
                0 <= k < 125 && final(driver).pin_hist() == old(driver).pin_hist()
                    + preamble_events(k, presence, self.rom) && final(driver).delay_hist() == old(driver).delay_hist() + preamble_waits(old(driver).cfg(), k, presence, self.rom),
            r matches Err(Error::Ds18b20(e)) ==> e == Ds18b20Error::BusNotHigh && final(driver).pin_hist() == old(driver).pin_hist() + low_samples(125) && final(driver).delay_hist() == old(driver).delay_hist() + repeat_wait(2_000, 125),
    {
        let presence = match driver.initialization() {
            Ok(presence) => presence,
            Err(e) => {
                return Err(e);
            },
        };
        let ghost k = choose|k: int|
            0 <= k < 125 && driver.pin_hist() == old(driver).pin_hist() + wait_for_high_events(k)
                + reset_tail_events(presence) && driver.delay_hist() == old(driver).delay_hist()
                + repeat_wait(2_000, k) + reset_tail_waits(old(driver).cfg());
        if !presence {
            proof {
                assert(driver.pin_hist() =~= old(driver).pin_hist() + preamble_events(
                    k,
                    false,
                    self.rom,
                ));
                assert(driver.delay_hist() =~= old(driver).delay_hist() + preamble_waits(
                    old(driver).cfg(),
                    k,
                    false,
                    self.rom,
                ));
            }
            return Ok(false);
        }
        match &self.rom {
            Some(rom) => {
                match driver.match_rom(*rom) {
                    Ok(()) => {},
                    Err(e) => {
                        return Err(e);
                    },
                }
            },
            None => {
                match driver.skip_rom() {
                    Ok(()) => {},
                    Err(e) => {
                        return Err(e);
                    },
                }
            },
        }
        proof {
            assert(driver.pin_hist() =~= old(driver).pin_hist() + preamble_events(
                k,
                true,
                self.rom,
            ));
            assert(driver.delay_hist() =~= old(driver).delay_hist() + preamble_waits(
                old(driver).cfg(),
                k,
                true,
                self.rom,
            ));
        }
        Ok(true)
    }

    /// Initiates a temperature conversion on the addressed device (or all
    /// devices when broadcasting). Returns whether a device was present.
    /// The caller must wait the resolution-dependent conversion time
    /// before reading the result; the engine does not enforce this wait.
    pub fn convert<T: Pin, U: Delay>(&self, driver: &mut Driver<T, U>) -> (r: Result<
        bool,
        Error<T::Fault>,
    >)
        ensures
            final(driver).cfg() == old(driver).cfg(),
            r matches Ok(true) ==> exists|k: int|
                0 <= k < 125 && final(driver).pin_hist() == old(driver).pin_hist()
                    + preamble_events(k, true, self.rom) + write_slots_events(8) && final(driver).delay_hist() == old(driver).delay_hist() + preamble_waits(old(driver).cfg(), k, true, self.rom) + write_byte_waits(
                    old(driver).cfg(),
                    COMMAND_MEMORY_CONVERT,
                ),
            r matches Ok(false) ==> exists|k: int|
                0 <= k < 125 && final(driver).pin_hist() == old(driver).pin_hist()
                    + preamble_events(k, false, self.rom) && final(driver).delay_hist() == old(driver).delay_hist() + preamble_waits(old(driver).cfg(), k, false, self.rom),
            r matches Err(Error::Ds18b20(e)) ==> e == Ds18b20Error::BusNotHigh && final(driver).pin_hist() == old(driver).pin_hist() + low_samples(125) && final(driver).delay_hist() == old(driver).delay_hist() + repeat_wait(2_000, 125),
    {
        let presence = match self.address(driver) {
            Ok(presence) => presence,
            Err(e) => {
                return Err(e);
            },
        };
        let ghost k = choose|k: int|
            0 <= k < 125 && driver.pin_hist() == old(driver).pin_hist() + preamble_events(
                k,
                presence,
                self.rom,
            ) && driver.delay_hist() == old(driver).delay_hist() + preamble_waits(
                old(driver).cfg(),
                k,
                presence,
                self.rom,
            );
        if !presence {
            return Ok(false);
        }
        match driver.convert_temperature() {
            Ok(()) => {},
            Err(e) => {
                return Err(e);
            },
        }
        proof {
            assert(driver.pin_hist() =~= old(driver).pin_hist() + preamble_events(
                k,
                true,
                self.rom,
            ) + write_slots_events(8));
            assert(driver.delay_hist() =~= old(driver).delay_hist() + preamble_waits(
                old(driver).cfg(),
                k,
                true,
                self.rom,
            ) + write_byte_waits(old(driver).cfg(), COMMAND_MEMORY_CONVERT));
        }
        Ok(true)
    }

    /// Recalls the values stored in EEPROM into the scratchpad, polling
    /// read slots until the device reports ready or the bounded budget is
    /// exhausted. Returns whether a device was present.
    pub fn recall<T: Pin, U: Delay>(&self, driver: &mut Driver<T, U>) -> (r: Result<
        bool,
        Error<T::Fault>,
    >)
        ensures
            final(driver).cfg() == old(driver).cfg(),
            r matches Ok(true) ==> exists|k: int, polls: int|
                0 <= k < 125 && 0 <= polls < 143 && final(driver).pin_hist() == old(driver).pin_hist() + preamble_events(k, true, self.rom) + write_slots_events(8)
                    + false_read_slots(polls) + read_slot_events(true) && final(driver).delay_hist() == old(driver).delay_hist() + preamble_waits(
                    old(driver).cfg(),
                    k,
                    true,
                    self.rom,
                ) + write_byte_waits(old(driver).cfg(), COMMAND_MEMORY_RECALL) + read_slots_waits(
                    old(driver).cfg(),
                    polls + 1,
                ),
            r matches Ok(false) ==> exists|k: int|
                0 <= k < 125 && final(driver).pin_hist() == old(driver).pin_hist()
                    + preamble_events(k, false, self.rom) && final(driver).delay_hist() == old(driver).delay_hist() + preamble_waits(old(driver).cfg(), k, false, self.rom),
            r matches Err(Error::Ds18b20(e)) ==> (e == Ds18b20Error::BusNotHigh || e
                == Ds18b20Error::Timeout) && (e == Ds18b20Error::BusNotHigh ==> final(driver).pin_hist() == old(driver).pin_hist() + low_samples(125) && final(driver).delay_hist() == old(driver).delay_hist() + repeat_wait(2_000, 125)) && (e
                == Ds18b20Error::Timeout ==> exists|k: int|
                0 <= k < 125 && final(driver).pin_hist() == old(driver).pin_hist()
                    + preamble_events(k, true, self.rom) + write_slots_events(8)
                    + false_read_slots(143) && final(driver).delay_hist() == old(driver).delay_hist() + preamble_waits(old(driver).cfg(), k, true, self.rom)
                    + write_byte_waits(old(driver).cfg(), COMMAND_MEMORY_RECALL)
                    + read_slots_waits(old(driver).cfg(), 143)),
    {
        let presence = match self.address(driver) {
            Ok(presence) => presence,
            Err(e) => {
                return Err(e);
            },
        };
        let ghost k = choose|k: int|
            0 <= k < 125 && driver.pin_hist() == old(driver).pin_hist() + preamble_events(
                k,
                presence,
                self.rom,
            ) && driver.delay_hist() == old(driver).delay_hist() + preamble_waits(
                old(driver).cfg(),
                k,
                presence,
                self.rom,
            );
        if !presence {
            return Ok(false);
        }
        match driver.recall_eeprom() {
            Ok(()) => {},
            Err(e) => {
                proof {
                    if e is Ds18b20 {
                        assert(driver.pin_hist() =~= old(driver).pin_hist() + preamble_events(
                            k,
                            true,
                            self.rom,
                        ) + write_slots_events(8) + false_read_slots(143));
                        assert(driver.delay_hist() =~= old(driver).delay_hist() + preamble_waits(
                            old(driver).cfg(),
                            k,
                            true,
                            self.rom,
                        ) + write_byte_waits(old(driver).cfg(), COMMAND_MEMORY_RECALL)
                            + read_slots_waits(old(driver).cfg(), 143));
                    }
                }
                return Err(e);
            },
        }
        proof {
            let polls = choose|polls: int|
                0 <= polls < 143 && driver.pin_hist() == old(driver).pin_hist() + preamble_events(
                    k,
                    true,
                    self.rom,
                ) + write_slots_events(8) + false_read_slots(polls) + read_slot_events(true)
                    && driver.delay_hist() == old(driver).delay_hist() + preamble_waits(
                    old(driver).cfg(),
                    k,
                    true,
                    self.rom,
                ) + write_byte_waits(old(driver).cfg(), COMMAND_MEMORY_RECALL) + read_slots_waits(
                    old(driver).cfg(),
                    polls + 1,
                );
            assert(0 <= polls < 143);
        }
        Ok(true)
    }

    /// Copies the scratchpad into EEPROM on the addressed device, then
    /// waits the fixed 10 ms for the write to complete. Returns whether a
    /// device was present.
    pub fn copy<T: Pin, U: Delay>(&self, driver: &mut Driver<T, U>) -> (r: Result<
        bool,
        Error<T::Fault>,
    >)
        ensures
            final(driver).cfg() == old(driver).cfg(),
            r matches Ok(true) ==> exists|k: int|
                0 <= k < 125 && final(driver).pin_hist() == old(driver).pin_hist()
                    + preamble_events(k, true, self.rom) + write_slots_events(8) && final(driver).delay_hist() == old(driver).delay_hist() + preamble_waits(
                    old(driver).cfg(),
                    k,
                    true,
                    self.rom,
                ) + write_byte_waits(old(driver).cfg(), COMMAND_MEMORY_SCRATCHPAD_COPY).push(
                    10_000_000u32,
                ),
            r matches Ok(false) ==> exists|k: int|
                0 <= k < 125 && final(driver).pin_hist() == old(driver).pin_hist()
                    + preamble_events(k, false, self.rom) && final(driver).delay_hist() == old(driver).delay_hist() + preamble_waits(old(driver).cfg(), k, false, self.rom),
            r matches Err(Error::Ds18b20(e)) ==> e == Ds18b20Error::BusNotHigh && final(driver).pin_hist() == old(driver).pin_hist() + low_samples(125) && final(driver).delay_hist() == old(driver).delay_hist() + repeat_wait(2_000, 125),
    {
        let presence = match self.address(driver) {
            Ok(presence) => presence,
            Err(e) => {
                return Err(e);
            },
        };
        let ghost k = choose|k: int|
            0 <= k < 125 && driver.pin_hist() == old(driver).pin_hist() + preamble_events(
                k,
                presence,
                self.rom,
            ) && driver.delay_hist() == old(driver).delay_hist() + preamble_waits(
                old(driver).cfg(),
                k,
                presence,
                self.rom,
            );
        if !presence {
            return Ok(false);
        }
        match driver.copy_scratchpad() {
            Ok(()) => {},
            Err(e) => {
                return Err(e);
            },
        }
        proof {
            assert(driver.pin_hist() =~= old(driver).pin_hist() + preamble_events(
                k,
                true,
                self.rom,
            ) + write_slots_events(8));
            assert(driver.delay_hist() =~= old(driver).delay_hist() + preamble_waits(
                old(driver).cfg(),
                k,
                true,
                self.rom,
            ) + write_byte_waits(old(driver).cfg(), COMMAND_MEMORY_SCRATCHPAD_COPY).push(
                10_000_000u32,
            ));
        }
        Ok(true)
    }

    /// Reads and decodes the scratchpad of the addressed device,
    /// propagating checksum-mismatch and invalid-configuration conditions.
    /// Returns `None` when no device was present.
    pub fn read<T: Pin, U: Delay>(&self, driver: &mut Driver<T, U>) -> (r: Result<
        Option<Scratchpad>,
        Error<T::Fault>,
    >)
        ensures
            final(driver).cfg() == old(driver).cfg(),
            r matches Ok(Some(sp)) ==> exists|bytes: Seq<u8>|
                #![auto]
                bytes.len() == 9 && crc8_of(bytes) == 0 && spec_resolution_of(bytes[4]) is Some
                    && sp == spec_scratchpad(bytes) && exists|k: int|
                    0 <= k < 125 && final(driver).pin_hist() == old(driver).pin_hist()
                        + preamble_events(k, true, self.rom) + write_slots_events(8)
                        + read_bytes_events(bytes) && final(driver).delay_hist() == old(driver).delay_hist() + preamble_waits(old(driver).cfg(), k, true, self.rom)
                        + write_byte_waits(old(driver).cfg(), COMMAND_MEMORY_SCRATCHPAD_READ)
                        + read_bytes_waits(old(driver).cfg(), 9),
            r matches Ok(None) ==> exists|k: int|
                0 <= k < 125 && final(driver).pin_hist() == old(driver).pin_hist()
                    + preamble_events(k, false, self.rom) && final(driver).delay_hist() == old(driver).delay_hist() + preamble_waits(old(driver).cfg(), k, false, self.rom),
            r matches Err(Error::Ds18b20(e)) ==> (e == Ds18b20Error::BusNotHigh || e matches
                Ds18b20Error::UnexpectedCrc { .. } || e matches
                Ds18b20Error::UnexpectedConfigurationRegister { .. }) && (e
                == Ds18b20Error::BusNotHigh ==> final(driver).pin_hist() == old(driver).pin_hist()
                + low_samples(125) && final(driver).delay_hist() == old(driver).delay_hist()
                + repeat_wait(2_000, 125)) && (!(e == Ds18b20Error::BusNotHigh) ==> exists|
                k: int,
                bytes: Seq<u8>,
            |
                #![auto]
                0 <= k < 125 && bytes.len() == 9 && (if crc8_of(bytes) != 0 {
                    e == (Ds18b20Error::UnexpectedCrc { crc8: crc8_of(bytes) })
                } else {
                    spec_resolution_of(bytes[4]) is None && e == (
                    Ds18b20Error::UnexpectedConfigurationRegister {
                        configuration_register: bytes[4],
                    })
                }) && final(driver).pin_hist() == old(driver).pin_hist() + preamble_events(
                    k,
                    true,
                    self.rom,
                ) + write_slots_events(8) + read_bytes_events(bytes) && final(driver).delay_hist() == old(driver).delay_hist() + preamble_waits(
                    old(driver).cfg(),
                    k,
                    true,
                    self.rom,
                ) + write_byte_waits(old(driver).cfg(), COMMAND_MEMORY_SCRATCHPAD_READ)
                    + read_bytes_waits(old(driver).cfg(), 9)),
    {
        let presence = match self.address(driver) {
            Ok(presence) => presence,
            Err(e) => {
                return Err(e);
            },
        };
        let ghost k = choose|k: int|
            0 <= k < 125 && driver.pin_hist() == old(driver).pin_hist() + preamble_events(
                k,
                presence,
                self.rom,
            ) && driver.delay_hist() == old(driver).delay_hist() + preamble_waits(
                old(driver).cfg(),
                k,
                presence,
                self.rom,
            );
        if !presence {
            return Ok(None);
        }
        let ghost mid_pin = driver.pin_hist();
        let ghost mid_delay = driver.delay_hist();
        match driver.read_scratchpad() {
            Ok(scratchpad) => Ok(Some(scratchpad)),
            Err(e) => {
                proof {
                    match &e {
                        Error::Ds18b20(inner) => {
                            let bytes = choose|bytes: Seq<u8>|
                                #![auto]
                                bytes.len() == 9 && (if crc8_of(bytes) != 0 {
                                    *inner == (Ds18b20Error::UnexpectedCrc {
                                        crc8: crc8_of(bytes),
                                    })
                                } else {
                                    spec_resolution_of(bytes[4]) is None && *inner == (
                                    Ds18b20Error::UnexpectedConfigurationRegister {
                                        configuration_register: bytes[4],
                                    })
                                }) && driver.pin_hist() == mid_pin + write_slots_events(8)
                                    + read_bytes_events(bytes) && driver.delay_hist() == mid_delay
                                    + write_byte_waits(
                                    old(driver).cfg(),
                                    COMMAND_MEMORY_SCRATCHPAD_READ,
                                ) + read_bytes_waits(old(driver).cfg(), 9);
                            assert(driver.pin_hist() =~= old(driver).pin_hist()
                                + preamble_events(k, true, self.rom) + write_slots_events(8)
                                + read_bytes_events(bytes));
                            assert(driver.delay_hist() =~= old(driver).delay_hist()
                                + preamble_waits(old(driver).cfg(), k, true, self.rom)
                                + write_byte_waits(
                                old(driver).cfg(),
                                COMMAND_MEMORY_SCRATCHPAD_READ,
                            ) + read_bytes_waits(old(driver).cfg(), 9));
                        },
                        Error::Pin(_) => {},
                    }
                }
                Err(e)
            },
        }
    }

    /// Writes the three writable scratchpad bytes of `scratchpad` (high
    /// trigger, low trigger, configuration register, in that fixed order)
    /// to the addressed device. Returns whether a device was present.
    pub fn write<T: Pin, U: Delay>(&self, driver: &mut Driver<T, U>, scratchpad: Scratchpad) -> (r:
        Result<bool, Error<T::Fault>>)
        ensures
            final(driver).cfg() == old(driver).cfg(),
            r matches Ok(true) ==> exists|k: int|
                0 <= k < 125 && final(driver).pin_hist() == old(driver).pin_hist()
                    + preamble_events(k, true, self.rom) + write_slots_events(32) && final(driver).delay_hist() == old(driver).delay_hist() + preamble_waits(
                    old(driver).cfg(),
                    k,
                    true,
                    self.rom,
                ) + write_byte_waits(old(driver).cfg(), COMMAND_MEMORY_SCRATCHPAD_WRITE)
                    + write_byte_waits(old(driver).cfg(), scratchpad.triggers.high as u8)
                    + write_byte_waits(old(driver).cfg(), scratchpad.triggers.low as u8)
                    + write_byte_waits(
                    old(driver).cfg(),
                    spec_resolution_byte(scratchpad.configuration_register.resolution),
                ),
            r matches Ok(false) ==> exists|k: int|
                0 <= k < 125 && final(driver).pin_hist() == old(driver).pin_hist()
                    + preamble_events(k, false, self.rom) && final(driver).delay_hist() == old(driver).delay_hist() + preamble_waits(old(driver).cfg(), k, false, self.rom),
            r matches Err(Error::Ds18b20(e)) ==> e == Ds18b20Error::BusNotHigh && final(driver).pin_hist() == old(driver).pin_hist() + low_samples(125) && final(driver).delay_hist() == old(driver).delay_hist() + repeat_wait(2_000, 125),
    {
        let presence = match self.address(driver) {
            Ok(presence) => presence,
            Err(e) => {
                return Err(e);
            },
        };
        let ghost k = choose|k: int|
            0 <= k < 125 && driver.pin_hist() == old(driver).pin_hist() + preamble_events(
                k,
                presence,
                self.rom,
            ) && driver.delay_hist() == old(driver).delay_hist() + preamble_waits(
                old(driver).cfg(),
                k,
                presence,
                self.rom,
            );
        if !presence {
            return Ok(false);
        }
        match driver.write_scratchpad(scratchpad) {
            Ok(()) => {},
            Err(e) => {
                return Err(e);
            },
        }
        proof {
            assert(driver.pin_hist() =~= old(driver).pin_hist() + preamble_events(
                k,
                true,
                self.rom,
            ) + write_slots_events(32));
        }
        Ok(true)
    }

}

} // verus!
