//! Master-side engine for the 1-Wire single-conductor bus protocol: timed
//! bit/byte transfer over a single open-drain line, the ROM search algorithm,
//! CRC validation, and the command layer that composes these primitives into
//! device operations for the DS18B20 digital thermometer.
//!
//! The engine consumes its host platform only through two capability
//! contracts: a digital I/O pin and a blocking delay source (see [`bus`]).
//! Every contract is stated over the transcript of line actions and waits
//! those capabilities record, so each transaction is pinned down to the
//! exact drive/release/sample sequence and slot timings it performs.
//!
//! The two transcripts are separate: each contract fixes the sequence of
//! line actions and the sequence of waits on its own, while their relative
//! interleaving (that the line is held low *for* a given interval, rather
//! than merely driven low at some point and delayed the same total) is
//! fixed by the structure of each primitive, not by the contracts.

pub mod bus;
pub mod commands;
pub mod configuration;
pub mod crc8;
pub mod error;
pub mod rom;
pub mod scratchpad;
pub mod search;
pub mod search_laws;
pub mod transactions;

use vstd::prelude::*;

use crate::bus::{Delay, Pin, PinEvent, read_slot_events, read_slot_waits, write_slot_events,
    write_slot_waits, u8_bit, read_byte_events, read_byte_events_n, read_byte_waits,
    read_slots_waits, write_slots_events, write_byte_waits, write_byte_waits_n,
    read_bytes_events, read_bytes_waits, write_bytes_waits};
use crate::configuration::Configuration;
use crate::error::Ds18b20Error;
use crate::error::Error;
use crate::rom::Rom;

verus! {

/// The family code of the DS18B20 digital thermometer.
pub const FAMILY_CODE: u8 = 0x28;

/// Ds18b20
pub struct Ds18b20 {
    rom: Rom,
}

impl Ds18b20 {
    /// The ROM code this device handle was built from.
    pub closed spec fn spec_rom(&self) -> Rom {
        self.rom
    }

    /// Checks that the given code contains the correct family code, then
    /// returns a device; fails exactly when the family code differs.
    pub fn new(rom: Rom) -> (r: Result<Ds18b20, Ds18b20Error>)
        ensures
            r is Ok <==> rom.family_code == FAMILY_CODE,
            r matches Ok(d) ==> d.spec_rom() == rom,
            r matches Err(e) ==> e == (Ds18b20Error::UnexpectedFamilyCode {
                family_code: rom.family_code,
            }),
    {
        if rom.family_code == FAMILY_CODE {
            Ok(Self { rom })
        } else {
            Err(Ds18b20Error::UnexpectedFamilyCode { family_code: rom.family_code })
        }
    }

    /// Returns the device rom
    pub fn rom(&self) -> (r: &Rom)
        ensures
            *r == self.spec_rom(),
    {
        &self.rom
    }
}

/// Ds18b20 driver: owns the pin and delay capabilities exclusively for its
/// lifetime, together with the timing profile selected at construction.
#[derive(Clone, Copy, Debug)]
pub struct Driver<T, U> {
    pub(crate) pin: T,
    pub(crate) delay: U,
    pub(crate) configuration: Configuration,
}

impl<T: Pin, U: Delay> Driver<T, U> {
    /// The timing profile of this driver.
    pub closed spec fn cfg(&self) -> Configuration {
        self.configuration
    }

    /// The actions performed on the line so far.
    pub closed spec fn pin_hist(&self) -> Seq<PinEvent> {
        self.pin.history()
    }

    /// The waits performed so far, in nanoseconds.
    pub closed spec fn delay_hist(&self) -> Seq<u32> {
        self.delay.waits()
    }

    /// Builds a driver at standard speed and releases the line, which should
    /// be high during idle.
    pub fn new(pin: T, delay: U) -> (r: Result<Self, Error<T::Fault>>)
        ensures
            r matches Ok(d) ==> d.cfg() == crate::configuration::standard_spec() && d.pin_hist()
                == pin.history().push(PinEvent::SetHigh) && d.delay_hist() == delay.waits(),
            r matches Err(e) ==> e is Pin,
    {
        let mut driver = Self { pin, delay, configuration: Configuration::standard() };
        match driver.set_high() {
            Ok(()) => Ok(driver),
            Err(e) => Err(e),
        }
    }

    /// Releases the driver, handing the pin capability back to the host.
    pub fn into_inner(self) -> (r: T)
        ensures
            r.history() == self.pin_hist(),
    {
        self.pin
    }

    /// Samples the line; true means the line is high.
    pub fn is_high(&mut self) -> (r: Result<bool, Error<T::Fault>>)
        ensures
            final(self).cfg() == old(self).cfg(),
            final(self).delay_hist() == old(self).delay_hist(),
            r matches Ok(level) ==> final(self).pin_hist() == old(self).pin_hist().push(
                PinEvent::Sample(level),
            ),
            r matches Err(e) ==> e is Pin,
    {
        match self.pin.is_high() {
            Ok(level) => Ok(level),
            Err(e) => Err(Error::Pin(e)),
        }
    }

    /// Samples the line; true means the line is low.
    pub fn is_low(&mut self) -> (r: Result<bool, Error<T::Fault>>)
        ensures
            final(self).cfg() == old(self).cfg(),
            final(self).delay_hist() == old(self).delay_hist(),
            r matches Ok(low) ==> final(self).pin_hist() == old(self).pin_hist().push(
                PinEvent::Sample(!low),
            ),
            r matches Err(e) ==> e is Pin,
    {
        match self.pin.is_low() {
            Ok(low) => Ok(low),
            Err(e) => Err(Error::Pin(e)),
        }
    }

    /// Releases the line, letting another device or the pull-up resistor
    /// raise it.
    pub fn set_high(&mut self) -> (r: Result<(), Error<T::Fault>>)
        ensures
            final(self).cfg() == old(self).cfg(),
            final(self).delay_hist() == old(self).delay_hist(),
            r is Ok ==> final(self).pin_hist() == old(self).pin_hist().push(PinEvent::SetHigh),
            r matches Err(e) ==> e is Pin,
    {
        match self.pin.set_high() {
            Ok(()) => Ok(()),
            Err(e) => Err(Error::Pin(e)),
        }
    }

    /// Drives the line low.
    pub fn set_low(&mut self) -> (r: Result<(), Error<T::Fault>>)
        ensures
            final(self).cfg() == old(self).cfg(),
            final(self).delay_hist() == old(self).delay_hist(),
            r is Ok ==> final(self).pin_hist() == old(self).pin_hist().push(PinEvent::SetLow),
            r matches Err(e) ==> e is Pin,
    {
        match self.pin.set_low() {
            Ok(()) => Ok(()),
            Err(e) => Err(Error::Pin(e)),
        }
    }

    /// Blocks for `ns` nanoseconds.
    pub fn delay(&mut self, ns: u32)
        ensures
            final(self).cfg() == old(self).cfg(),
            final(self).pin_hist() == old(self).pin_hist(),
            final(self).delay_hist() == old(self).delay_hist().push(ns),
    {
        self.delay.delay_ns(ns);
    }

    /// Read a bit from the 1-Wire bus and return it: drive low for A,
    /// release, sample after E, complete the slot after F.
    pub fn read_bit(&mut self) -> (r: Result<bool, Error<T::Fault>>)
        ensures
            final(self).cfg() == old(self).cfg(),
            r matches Ok(bit) ==> final(self).pin_hist() == old(self).pin_hist()
                + read_slot_events(bit) && final(self).delay_hist() == old(self).delay_hist()
                + read_slot_waits(old(self).cfg()),
            r matches Err(e) ==> e is Pin,
    {
        match self.set_low() {
            Ok(()) => {},
            Err(e) => {
                return Err(e);
            },
        }
        let ns = self.configuration.a;
        self.delay(ns);
        match self.set_high() {
            Ok(()) => {},
            Err(e) => {
                return Err(e);
            },
        }
        let ns = self.configuration.e;
        self.delay(ns);
        let bit = match self.is_high() {
            Ok(level) => level,
            Err(e) => {
                return Err(e);
            },
        };
        let ns = self.configuration.f;
        self.delay(ns);
        proof {
            assert(self.pin_hist() =~= old(self).pin_hist() + read_slot_events(bit));
            assert(self.delay_hist() =~= old(self).delay_hist() + read_slot_waits(
                old(self).cfg(),
            ));
        }
        Ok(bit)
    }

    /// Send a 1-Wire write bit: drive low for A (1 bit) or C (0 bit),
    /// release, complete the slot after B or D. The pin actions are the same
    /// for both bit values; the bit is carried by the slot timing alone.
    pub fn write_bit(&mut self, bit: bool) -> (r: Result<(), Error<T::Fault>>)
        ensures
            final(self).cfg() == old(self).cfg(),
            r is Ok ==> final(self).pin_hist() == old(self).pin_hist() + write_slot_events()
                && final(self).delay_hist() == old(self).delay_hist() + write_slot_waits(
                old(self).cfg(),
                bit,
            ),
            r matches Err(e) ==> e is Pin,
    {
        match self.set_low() {
            Ok(()) => {},
            Err(e) => {
                return Err(e);
            },
        }
        let ns = if bit {
            self.configuration.a
        } else {
            self.configuration.c
        };
        self.delay(ns);
        match self.set_high() {
            Ok(()) => {},
            Err(e) => {
                return Err(e);
            },
        }
        let ns = if bit {
            self.configuration.b
        } else {
            self.configuration.d
        };
        self.delay(ns);
        proof {
            assert(self.pin_hist() =~= old(self).pin_hist() + write_slot_events());
            assert(self.delay_hist() =~= old(self).delay_hist() + write_slot_waits(
                old(self).cfg(),
                bit,
            ));
        }
        Ok(())
    }

    /// Read a 1-Wire data byte, least-significant bit first: the sampled
    /// bits are the bits of the returned byte, LSB first.
    pub fn read_byte(&mut self) -> (r: Result<u8, Error<T::Fault>>)
        ensures
            final(self).cfg() == old(self).cfg(),
            r matches Ok(byte) ==> final(self).pin_hist() == old(self).pin_hist()
                + read_byte_events(byte) && final(self).delay_hist() == old(self).delay_hist()
                + read_byte_waits(old(self).cfg()),
            r matches Err(e) ==> e is Pin,
    {
        let ghost h0 = self.pin_hist();
        let ghost d0 = self.delay_hist();
        let mut byte: u8 = 0;
        let mut i: u8 = 0;
        proof {
            assert(h0 + read_byte_events_n(0u8, 0) =~= h0);
            assert(d0 + read_slots_waits(old(self).cfg(), 0) =~= d0);
            assert forall|j: int| 0 <= j < 8 implies !u8_bit(0u8, j) by {
                let ju = j as u8;
                assert((0u8 >> ju) & 1 == 0) by (bit_vector);
            }
        }
        while i < 8
            invariant
                i <= 8,
                self.cfg() == old(self).cfg(),
                self.pin_hist() == h0 + read_byte_events_n(byte, i as int),
                self.delay_hist() == d0 + read_slots_waits(old(self).cfg(), i as int),
                forall|j: int| i <= j < 8 ==> !u8_bit(byte, j),
            decreases 8 - i,
        {
            let bit = match self.read_bit() {
                Ok(bit) => bit,
                Err(e) => {
                    return Err(e);
                },
            };
            let ghost prev = byte;
            if bit {
                byte = byte | (1u8 << i);
            }
            proof {
                if bit {
                    lemma_u8_or_bit(prev, i);
                }
                assert forall|j: int| 0 <= j < 8 && j != i implies u8_bit(byte, j) == u8_bit(
                    prev,
                    j,
                ) by {
                    let ju = j as u8;
                    assert(ju < 8 && ju != i);
                }
                if !bit {
                    assert(u8_bit(byte, i as int) == bit);
                }
                assert(u8_bit(byte, i as int) == bit);
                lemma_read_byte_events_congruent(prev, byte, i as int);
                assert(self.pin_hist() =~= h0 + read_byte_events_n(byte, i + 1));
                assert(self.delay_hist() =~= d0 + read_slots_waits(old(self).cfg(), i + 1));
            }
            i = i + 1;
        }
        Ok(byte)
    }

    /// Read `len` 1-Wire data bytes, in order, stopping at the first
    /// failure.
    pub fn read_bytes(&mut self, len: usize) -> (r: Result<Vec<u8>, Error<T::Fault>>)
        ensures
            final(self).cfg() == old(self).cfg(),
            r matches Ok(bytes) ==> bytes@.len() == len && final(self).pin_hist() == old(self).pin_hist() + read_bytes_events(bytes@) && final(self).delay_hist() == old(self).delay_hist() + read_bytes_waits(old(self).cfg(), len as int),
            r matches Err(e) ==> e is Pin,
    {
        let ghost h0 = self.pin_hist();
        let ghost d0 = self.delay_hist();
        let mut bytes: Vec<u8> = Vec::new();
        let mut i: usize = 0;
        proof {
            assert(h0 + read_bytes_events(bytes@) =~= h0);
            assert(d0 + read_bytes_waits(old(self).cfg(), 0) =~= d0);
        }
        while i < len
            invariant
                i <= len,
                bytes@.len() == i,
                self.cfg() == old(self).cfg(),
                self.pin_hist() == h0 + read_bytes_events(bytes@),
                self.delay_hist() == d0 + read_bytes_waits(old(self).cfg(), i as int),
            decreases len - i,
        {
            let byte = match self.read_byte() {
                Ok(byte) => byte,
                Err(e) => {
                    return Err(e);
                },
            };
            let ghost prev_bytes = bytes@;
            bytes.push(byte);
            proof {
                assert(bytes@.drop_last() =~= prev_bytes);
                assert(bytes@.last() == byte);
                assert(self.pin_hist() =~= h0 + read_bytes_events(bytes@));
                assert(self.delay_hist() =~= d0 + read_bytes_waits(old(self).cfg(), i + 1));
            }
            i = i + 1;
        }
        Ok(bytes)
    }

    /// Write a 1-Wire data byte, least-significant bit first: the slot
    /// timings carry the bits of the byte, LSB first.
    pub fn write_byte(&mut self, byte: u8) -> (r: Result<(), Error<T::Fault>>)
        ensures
            final(self).cfg() == old(self).cfg(),
            r is Ok ==> final(self).pin_hist() == old(self).pin_hist() + write_slots_events(8)
                && final(self).delay_hist() == old(self).delay_hist() + write_byte_waits(
                old(self).cfg(),
                byte,
            ),
            r matches Err(e) ==> e is Pin,
    {
        let ghost h0 = self.pin_hist();
        let ghost d0 = self.delay_hist();
        let mut current = byte;
        let mut i: u8 = 0;
        proof {
            assert(byte >> 0u8 == byte) by (bit_vector);
            assert(h0 + write_slots_events(0) =~= h0);
            assert(d0 + write_byte_waits_n(old(self).cfg(), byte, 0) =~= d0);
        }
        while i < 8
            invariant
                i <= 8,
                current == byte >> i,
                self.cfg() == old(self).cfg(),
                self.pin_hist() == h0 + write_slots_events(i as int),
                self.delay_hist() == d0 + write_byte_waits_n(old(self).cfg(), byte, i as int),
            decreases 8 - i,
        {
            let bit = current & 0x01 == 0x01;
            proof {
                let b = byte;
                let k = i;
                assert(((b >> k) & 0x01 == 0x01) == ((b >> k) & 1 == 1)) by (bit_vector);
                let k1: u8 = (k + 1) as u8;
                assert((b >> k) >> 1 == b >> k1) by (bit_vector)
                    requires
                        k < 8,
                        k1 == k + 1,
                ;
            }
            match self.write_bit(bit) {
                Ok(()) => {},
                Err(e) => {
                    return Err(e);
                },
            }
            current = current >> 1;
            proof {
                assert(self.pin_hist() =~= h0 + write_slots_events(i + 1));
                assert(self.delay_hist() =~= d0 + write_byte_waits_n(
                    old(self).cfg(),
                    byte,
                    i + 1,
                ));
            }
            i = i + 1;
        }
        Ok(())
    }

    /// Write 1-Wire data bytes, in order, stopping at the first failure.
    pub fn write_bytes(&mut self, bytes: &[u8]) -> (r: Result<(), Error<T::Fault>>)
        ensures
            final(self).cfg() == old(self).cfg(),
            r is Ok ==> final(self).pin_hist() == old(self).pin_hist() + write_slots_events(
                8 * bytes@.len() as int,
            ) && final(self).delay_hist() == old(self).delay_hist() + write_bytes_waits(
                old(self).cfg(),
                bytes@,
            ),
            r matches Err(e) ==> e is Pin,
    {
        let ghost h0 = self.pin_hist();
        let ghost d0 = self.delay_hist();
        let mut i: usize = 0;
        proof {
            assert(h0 + write_slots_events(0) =~= h0);
            assert(bytes@.take(0) =~= Seq::<u8>::empty());
            assert(d0 + write_bytes_waits(old(self).cfg(), bytes@.take(0)) =~= d0);
        }
        while i < bytes.len()
            invariant
                i <= bytes@.len(),
                self.cfg() == old(self).cfg(),
                self.pin_hist() == h0 + write_slots_events(8 * i),
                self.delay_hist() == d0 + write_bytes_waits(old(self).cfg(), bytes@.take(i as int)),
            decreases bytes@.len() - i,
        {
            match self.write_byte(bytes[i]) {
                Ok(()) => {},
                Err(e) => {
                    return Err(e);
                },
            }
            proof {
                crate::bus::lemma_write_slots_events_add(8 * i, 8);
                assert(bytes@.take(i + 1).drop_last() =~= bytes@.take(i as int));
                assert(bytes@.take(i + 1).last() == bytes@[i as int]);
                assert(self.pin_hist() =~= h0 + write_slots_events(8 * (i + 1)));
                assert(self.delay_hist() =~= d0 + write_bytes_waits(
                    old(self).cfg(),
                    bytes@.take(i + 1),
                ));
            }
            i = i + 1;
        }
        proof {
            assert(bytes@.take(bytes@.len() as int) =~= bytes@);
        }
        Ok(())
    }
}

/// Setting bit `i` leaves every other bit of a byte unchanged and makes bit
/// `i` one.
proof fn lemma_u8_or_bit(b: u8, i: u8)
    by (bit_vector)
    requires
        i < 8,
    ensures
        forall|j: u8| #![trigger (b | (1u8 << i)) >> j] j < 8 && j != i ==> ((b | (1u8 << i)) >> j)
            & 1 == (b >> j) & 1,
        ((b | (1u8 << i)) >> i) & 1 == 1,
{
}

/// The first `n` read slots of a byte read depend only on the low `n` bits.
proof fn lemma_read_byte_events_congruent(b1: u8, b2: u8, n: int)
    requires
        forall|j: int| 0 <= j < n ==> u8_bit(b1, j) == u8_bit(b2, j),
    ensures
        read_byte_events_n(b1, n) == read_byte_events_n(b2, n),
    decreases n,
{
    if n > 0 {
        lemma_read_byte_events_congruent(b1, b2, n - 1);
    }
}

} // verus!
