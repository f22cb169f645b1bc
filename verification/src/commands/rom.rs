//! ROM (addressing) commands: read, match, skip, and the single-pass
//! search.

use vstd::prelude::*;

use crate::bus::{Delay, Pin, low_samples, read_bytes_events, read_bytes_waits, read_slot_events,
    read_slot_waits, repeat_wait, reset_tail_events, reset_tail_waits, wait_for_high_events,
    write_byte_waits, write_bytes_waits, write_slots_events};
use crate::crc8::crc8_of;
use crate::error::Ds18b20Error;
use crate::error::Error;
use crate::rom::{rom_to_bytes, rom_wf, u64_le_bytes, Rom};
use crate::search::{search_fold, search_step, search_steps_events, search_steps_waits};
use crate::Driver;

verus! {

pub const COMMAND_ALARM_SEARCH: u8 = 0xEC;

pub const COMMAND_ROM_READ: u8 = 0x33;

pub const COMMAND_ROM_MATCH: u8 = 0x55;

pub const COMMAND_ROM_SKIP: u8 = 0xCC;

pub const COMMAND_ROM_SEARCH: u8 = 0xF0;

impl<T: Pin, U: Delay> Driver<T, U> {
    /// Read ROM command.
    ///
    /// Reads the 8-bit family code, 48-bit serial number and 8-bit CRC of
    /// the single device on the bus. Only meaningful with exactly one
    /// device attached: with more, the wired-AND corrupts the read, which
    /// is detectable only through the CRC check.
    pub fn read_rom(&mut self) -> (r: Result<Rom, Error<T::Fault>>)
        ensures
            final(self).cfg() == old(self).cfg(),
            r matches Ok(rom) ==> rom_wf(rom) && final(self).pin_hist() == old(self).pin_hist()
                + write_slots_events(8) + read_bytes_events(rom_to_bytes(rom)) && final(self).delay_hist() == old(self).delay_hist() + write_byte_waits(
                old(self).cfg(),
                COMMAND_ROM_READ,
            ) + read_bytes_waits(old(self).cfg(), 8),
            r matches Err(Error::Ds18b20(e)) ==> exists|bytes: Seq<u8>|
                #![auto]
                bytes.len() == 8 && crc8_of(bytes) != 0 && e == (Ds18b20Error::UnexpectedCrc {
                    crc8: crc8_of(bytes),
                }) && final(self).pin_hist() == old(self).pin_hist() + write_slots_events(8)
                    + read_bytes_events(bytes) && final(self).delay_hist() == old(self).delay_hist() + write_byte_waits(old(self).cfg(), COMMAND_ROM_READ)
                    + read_bytes_waits(old(self).cfg(), 8),
    {
        match self.write_byte(COMMAND_ROM_READ) {
            Ok(()) => {},
            Err(e) => {
                return Err(e);
            },
        }
        let bytes = match self.read_bytes(8) {
            Ok(bytes) => bytes,
            Err(e) => {
                return Err(e);
            },
        };
        let array: [u8; 8] = [
            bytes[0],
            bytes[1],
            bytes[2],
            bytes[3],
            bytes[4],
            bytes[5],
            bytes[6],
            bytes[7],
        ];
        proof {
            assert(array@ =~= bytes@);
        }
        match Rom::try_from_bytes(array) {
            Ok(rom) => Ok(rom),
            Err(e) => Err(Error::Ds18b20(e)),
        }
    }

    /// Match ROM command.
    ///
    /// Writes the match command byte followed by the 8 address bytes
    /// verbatim, so that only the device with exactly this address responds
    /// to the following memory command.
    pub fn match_rom(&mut self, rom: Rom) -> (r: Result<(), Error<T::Fault>>)
        ensures
            final(self).cfg() == old(self).cfg(),
            r is Ok ==> final(self).pin_hist() == old(self).pin_hist() + write_slots_events(72)
                && final(self).delay_hist() == old(self).delay_hist() + write_byte_waits(
                old(self).cfg(),
                COMMAND_ROM_MATCH,
            ) + write_bytes_waits(old(self).cfg(), rom_to_bytes(rom)),
            r matches Err(e) ==> e is Pin,
    {
        match self.write_byte(COMMAND_ROM_MATCH) {
            Ok(()) => {},
            Err(e) => {
                return Err(e);
            },
        }
        let bytes = rom.to_bytes();
        match self.write_bytes(bytes.as_slice()) {
            Ok(()) => {},
            Err(e) => {
                return Err(e);
            },
        }
        proof {
            crate::bus::lemma_write_slots_events_add(8, 64);
            assert(self.pin_hist() =~= old(self).pin_hist() + write_slots_events(72));
        }
        Ok(())
    }

    /// Skip ROM command: a single command byte that addresses every
    /// listening device at once.
    pub fn skip_rom(&mut self) -> (r: Result<(), Error<T::Fault>>)
        ensures
            final(self).cfg() == old(self).cfg(),
            r is Ok ==> final(self).pin_hist() == old(self).pin_hist() + write_slots_events(8)
                && final(self).delay_hist() == old(self).delay_hist() + write_byte_waits(
                old(self).cfg(),
                COMMAND_ROM_SKIP,
            ),
            r matches Err(e) ==> e is Pin,
    {
        self.write_byte(COMMAND_ROM_SKIP)
    }

    /// Search ROM command: one full first pass of the binary elimination
    /// search, choosing the 0 branch at every conflict, so it yields the
    /// device whose address is least in wire order. Fails with a no-devices
    /// condition when no presence pulse answers the reset or the line
    /// floats both ways mid-search, and with a checksum mismatch when the
    /// assembled address fails its CRC check.
    pub fn search_rom(&mut self) -> (r: Result<Rom, Error<T::Fault>>)
        ensures
            final(self).cfg() == old(self).cfg(),
            r matches Ok(rom) ==> rom_wf(rom) && exists|k: int, resp: Seq<(bool, bool)>, addr:
                u64, disc: u64, ld: u8|
                #![auto]
                0 <= k < 125 && resp.len() == 64 && search_fold(None, resp) == Some(
                    (addr, disc, ld),
                ) && rom_to_bytes(rom) == u64_le_bytes(addr) && final(self).pin_hist() == old(self).pin_hist() + wait_for_high_events(k) + reset_tail_events(true)
                    + write_slots_events(8) + search_steps_events(resp) && final(self).delay_hist() == old(self).delay_hist() + repeat_wait(2_000, k)
                    + reset_tail_waits(old(self).cfg()) + write_byte_waits(
                    old(self).cfg(),
                    COMMAND_ROM_SEARCH,
                ) + search_steps_waits(old(self).cfg(), addr, 64),
            r matches Err(Error::Ds18b20(e)) ==> (e == Ds18b20Error::BusNotHigh || e
                == Ds18b20Error::NoAttachedDevices || e matches Ds18b20Error::UnexpectedCrc {
                ..
            }) && (e == Ds18b20Error::BusNotHigh ==> final(self).pin_hist() == old(self).pin_hist()
                + low_samples(125) && final(self).delay_hist() == old(self).delay_hist()
                + repeat_wait(2_000, 125)) && (e == Ds18b20Error::NoAttachedDevices ==> (exists|
                k: int,
            |
                0 <= k < 125 && final(self).pin_hist() == old(self).pin_hist()
                    + wait_for_high_events(k) + reset_tail_events(false) && final(self).delay_hist()
                    == old(self).delay_hist() + repeat_wait(2_000, k) + reset_tail_waits(
                    old(self).cfg(),
                )) || (exists|k: int, resp: Seq<(bool, bool)>, b1: bool, b2: bool|
                #![trigger wait_for_high_events(k), search_steps_events(resp),
                    read_slot_events(b1), read_slot_events(b2)]
                0 <= k < 125 && resp.len() < 64 && (search_fold(None, resp) matches Some(s)
                    && search_step(None, resp.len() as int, s.0, s.1, s.2, b1, b2) is None
                    && final(self).pin_hist() == old(self).pin_hist() + wait_for_high_events(k)
                    + reset_tail_events(true) + write_slots_events(8) + search_steps_events(resp)
                    + read_slot_events(b1) + read_slot_events(b2) && final(self).delay_hist()
                    == old(self).delay_hist() + repeat_wait(2_000, k) + reset_tail_waits(
                    old(self).cfg(),
                ) + write_byte_waits(old(self).cfg(), COMMAND_ROM_SEARCH) + search_steps_waits(
                    old(self).cfg(),
                    s.0,
                    resp.len() as int,
                ) + read_slot_waits(old(self).cfg()) + read_slot_waits(old(self).cfg())))) && (e
                matches Ds18b20Error::UnexpectedCrc { crc8 } ==> exists|
                k: int,
                resp: Seq<(bool, bool)>,
            |
                #![trigger wait_for_high_events(k), search_steps_events(resp)]
                0 <= k < 125 && resp.len() == 64 && (search_fold(None, resp) matches Some(s)
                    && crc8 == crc8_of(u64_le_bytes(s.0)) && crc8_of(u64_le_bytes(s.0)) != 0
                    && final(self).pin_hist() == old(self).pin_hist() + wait_for_high_events(k)
                    + reset_tail_events(true) + write_slots_events(8) + search_steps_events(resp)
                    && final(self).delay_hist() == old(self).delay_hist() + repeat_wait(2_000, k)
                    + reset_tail_waits(old(self).cfg()) + write_byte_waits(
                    old(self).cfg(),
                    COMMAND_ROM_SEARCH,
                ) + search_steps_waits(old(self).cfg(), s.0, 64))),
    {
        match self.device_search(None, false) {
            Ok(Some((rom, _state))) => Ok(rom),
            Ok(None) => Err(Error::Ds18b20(Ds18b20Error::NoAttachedDevices)),
            Err(e) => Err(e),
        }
    }
}

} // verus!
