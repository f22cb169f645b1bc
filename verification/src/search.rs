//! The ROM search engine: iterative binary elimination over the implicit
//! trie of 64-bit addresses, resolving wired-AND collisions bit by bit and
//! resumable across passes through an explicit [`SearchState`] value.
//!
//! Each of the 64 bit positions is scanned by reading two complementary
//! bits: `(0,0)` means devices disagree at this position (a conflict),
//! `(0,1)` means all remaining devices carry a 1, `(1,0)` means they all
//! carry a 0, and `(1,1)` means no device answered. The selected bit is
//! written back onto the bus to keep only the matching subset of devices
//! active for the rest of the transaction.

use vstd::prelude::*;

use crate::bus::{Delay, Pin, PinEvent, low_samples, read_slot_events, read_slot_waits,
    repeat_wait, reset_tail_events, reset_tail_waits, wait_for_high_events, write_byte_waits,
    write_slot_events, write_slot_waits, write_slots_events};
use crate::commands::rom::{COMMAND_ALARM_SEARCH, COMMAND_ROM_SEARCH};
use crate::configuration::Configuration;
use crate::crc8::crc8_of;
use crate::error::Ds18b20Error;
use crate::error::Error;
use crate::rom::{rom_to_bytes, u64_le_bytes, Rom};
use crate::Driver;

verus! {

/// Resumable search state: the address of the last found device, the
/// conflict mask recording every bit position where devices disagreed and
/// the 0 branch was taken, and the index of the mask's highest set bit. A
/// zero mask after a pass means the search is exhausted.
#[derive(Clone, Copy, Debug, PartialEq, Eq, Structural)]
pub struct SearchState {
    /// The address of the last found device.
    pub address: u64,
    /// Bitflags of the discrepancies found, at the positions where the 0
    /// branch was chosen and the 1 branch is still unexplored.
    pub discrepancies: u64,
    /// Index of the last (leftmost, closest to the MSB) discrepancy bit.
    pub last_discrepancy_index: u8,
}

/// Bit `i` of a 64-bit address, LSB first.
pub open spec fn u64_bit(v: u64, i: int) -> bool {
    (v >> (i as u64)) & 1 == 1
}

/// The state a search pass resumes from, if any.
pub open spec fn deref_state(s: Option<&SearchState>) -> Option<SearchState> {
    match s {
        Some(st) => Some(*st),
        None => None,
    }
}

/// Whether step `i` of a pass follows the path of the previous pass.
pub open spec fn follow_phase(resume: Option<SearchState>, i: int) -> bool {
    match resume {
        Some(st) => i < st.last_discrepancy_index,
        None => false,
    }
}

/// Whether step `i` of a pass is the fork: the highest conflict of the
/// previous pass, where the unexplored 1 branch is now taken.
pub open spec fn fork_phase(resume: Option<SearchState>, i: int) -> bool {
    match resume {
        Some(st) => i == st.last_discrepancy_index,
        None => false,
    }
}

/// One step of a search pass: from the accumulated address, conflict mask
/// and highest-conflict index, and the two bits read at position `i`, to
/// the updated accumulators; `None` is a protocol failure (no device
/// answered where one was owed).
pub open spec fn search_step(
    resume: Option<SearchState>,
    i: int,
    rom: u64,
    disc: u64,
    ld: u8,
    b1: bool,
    b2: bool,
) -> Option<(u64, u64, u8)> {
    let mask = 1u64 << (i as u64);
    if follow_phase(resume, i) {
        // follow the previous path; the two reads are ignored
        let st = resume.unwrap();
        let rom2 = if u64_bit(st.address, i) {
            rom | mask
        } else {
            rom
        };
        if u64_bit(st.discrepancies, i) {
            Some((rom2, disc | mask, i as u8))
        } else {
            Some((rom2, disc, ld))
        }
    } else if fork_phase(resume, i) {
        // the bus must still report a conflict here; take the 1 branch and
        // clear this position from the mask
        if !b1 && !b2 {
            Some((rom | mask, disc, ld))
        } else {
            None
        }
    } else if b1 && b2 {
        None
    } else if !b1 && b2 {
        Some((rom | mask, disc, ld))
    } else if b1 && !b2 {
        Some((rom, disc, ld))
    } else {
        // conflict: take the 0 branch and record the unexplored 1 branch
        Some((rom, disc | mask, i as u8))
    }
}

/// A search pass folded over the stream of two-bit responses, starting
/// from empty accumulators.
pub open spec fn search_fold(resume: Option<SearchState>, resp: Seq<(bool, bool)>) -> Option<
    (u64, u64, u8),
>
    decreases resp.len(),
{
    if resp.len() == 0 {
        Some((0u64, 0u64, 0u8))
    } else {
        match search_fold(resume, resp.drop_last()) {
            None => None,
            Some(s) => search_step(
                resume,
                resp.len() - 1,
                s.0,
                s.1,
                s.2,
                resp.last().0,
                resp.last().1,
            ),
        }
    }
}

/// The pin actions of the search steps that read `resp`: two read slots
/// and one write slot per bit position.
pub open spec fn search_steps_events(resp: Seq<(bool, bool)>) -> Seq<PinEvent>
    decreases resp.len(),
{
    if resp.len() == 0 {
        Seq::empty()
    } else {
        search_steps_events(resp.drop_last()) + read_slot_events(resp.last().0)
            + read_slot_events(resp.last().1) + write_slot_events()
    }
}

/// The waits of the first `n` search steps: the bit written back at step
/// `i` is bit `i` of the assembled address.
pub open spec fn search_steps_waits(c: Configuration, rom: u64, n: int) -> Seq<u32>
    decreases n,
{
    if n <= 0 {
        Seq::empty()
    } else {
        search_steps_waits(c, rom, n - 1) + read_slot_waits(c) + read_slot_waits(c)
            + write_slot_waits(c, u64_bit(rom, n - 1))
    }
}

/// The first `n` search-step waits depend only on the low `n` address bits.
proof fn lemma_search_steps_waits_congruent(c: Configuration, r1: u64, r2: u64, n: int)
    requires
        forall|j: int| 0 <= j < n ==> u64_bit(r1, j) == u64_bit(r2, j),
    ensures
        search_steps_waits(c, r1, n) == search_steps_waits(c, r2, n),
    decreases n,
{
    if n > 0 {
        lemma_search_steps_waits_congruent(c, r1, r2, n - 1);
    }
}

/// Setting bit `i` leaves every other bit of a 64-bit value unchanged and
/// makes bit `i` one.
pub proof fn lemma_u64_or_bit(v: u64, i: u64)
    by (bit_vector)
    requires
        i < 64,
    ensures
        forall|j: u64| #![trigger (v | (1u64 << i)) >> j] j < 64 && j != i ==> ((v | (1u64 << i))
            >> j) & 1 == (v >> j) & 1,
        ((v | (1u64 << i)) >> i) & 1 == 1,
{
}

impl<T: Pin, U: Delay> Driver<T, U> {
    /// Search for device addresses on the bus.
    ///
    /// They can be filtered to only alarming devices if needed. Start the
    /// first search with a `search_state` of `None`, then use the returned
    /// state for subsequent searches. There is no time limit for continuing
    /// a search, but if devices are added, removed or change alarm state,
    /// the search may return an error or fail to find a device. Device
    /// addresses are always returned in the same order: ascending in wire
    /// order, bit 0 first. A state whose conflict mask is zero reports the
    /// search as exhausted (`Ok(None)`), as does a bus on which no device
    /// answers the reset with a presence pulse.
    pub fn device_search(
        &mut self,
        search_state: Option<&SearchState>,
        only_alarming: bool,
    ) -> (r: Result<Option<(Rom, SearchState)>, Error<T::Fault>>)
        ensures
            final(self).cfg() == old(self).cfg(),
            (match search_state {
                Some(st) => st.discrepancies == 0,
                None => false,
            }) ==> (r matches Ok(None)) && final(self).pin_hist() == old(self).pin_hist()
                && final(self).delay_hist() == old(self).delay_hist(),
            r matches Ok(None) ==> ((match search_state {
                Some(st) => st.discrepancies == 0,
                None => false,
            }) && final(self).pin_hist() == old(self).pin_hist() && final(self).delay_hist()
                == old(self).delay_hist()) || (exists|k: int|
                0 <= k < 125 && final(self).pin_hist() == old(self).pin_hist()
                    + wait_for_high_events(k) + reset_tail_events(false) && final(self).delay_hist() == old(self).delay_hist() + repeat_wait(2_000, k) + reset_tail_waits(
                old(self).cfg(),
            )),
            r matches Ok(Some((rom, state))) ==> crc8_of(u64_le_bytes(state.address)) == 0
                && rom_to_bytes(rom) == u64_le_bytes(state.address) && exists|
                k: int,
                resp: Seq<(bool, bool)>,
            |
                #![auto]
                0 <= k < 125 && resp.len() == 64 && search_fold(deref_state(search_state), resp)
                    == Some((state.address, state.discrepancies, state.last_discrepancy_index))
                    && final(self).pin_hist() == old(self).pin_hist() + wait_for_high_events(k)
                    + reset_tail_events(true) + write_slots_events(8) + search_steps_events(resp)
                    && final(self).delay_hist() == old(self).delay_hist() + repeat_wait(2_000, k)
                    + reset_tail_waits(old(self).cfg()) + write_byte_waits(
                    old(self).cfg(),
                    if only_alarming {
                        COMMAND_ALARM_SEARCH
                    } else {
                        COMMAND_ROM_SEARCH
                    },
                ) + search_steps_waits(old(self).cfg(), state.address, 64),
            r matches Err(Error::Ds18b20(e)) ==> (e == Ds18b20Error::BusNotHigh || e
                == Ds18b20Error::NoAttachedDevices || e matches Ds18b20Error::UnexpectedCrc {
                ..
            }) && (e == Ds18b20Error::BusNotHigh ==> final(self).pin_hist() == old(self).pin_hist()
                + low_samples(125) && final(self).delay_hist() == old(self).delay_hist()
                + repeat_wait(2_000, 125)) && (e == Ds18b20Error::NoAttachedDevices ==> exists|
                k: int,
                resp: Seq<(bool, bool)>,
                b1: bool,
                b2: bool,
            |
                #![trigger wait_for_high_events(k), search_steps_events(resp),
                    read_slot_events(b1), read_slot_events(b2)]
                0 <= k < 125 && resp.len() < 64 && (search_fold(deref_state(search_state), resp)
                    matches Some(s) && search_step(
                    deref_state(search_state),
                    resp.len() as int,
                    s.0,
                    s.1,
                    s.2,
                    b1,
                    b2,
                ) is None && final(self).pin_hist() == old(self).pin_hist()
                    + wait_for_high_events(k) + reset_tail_events(true) + write_slots_events(8)
                    + search_steps_events(resp) + read_slot_events(b1) + read_slot_events(b2)
                    && final(self).delay_hist() == old(self).delay_hist() + repeat_wait(2_000, k)
                    + reset_tail_waits(old(self).cfg()) + write_byte_waits(
                    old(self).cfg(),
                    if only_alarming {
                        COMMAND_ALARM_SEARCH
                    } else {
                        COMMAND_ROM_SEARCH
                    },
                ) + search_steps_waits(old(self).cfg(), s.0, resp.len() as int) + read_slot_waits(
                    old(self).cfg(),
                ) + read_slot_waits(old(self).cfg()))) && (e matches Ds18b20Error::UnexpectedCrc {
                crc8,
            } ==> exists|k: int, resp: Seq<(bool, bool)>|
                #![trigger wait_for_high_events(k), search_steps_events(resp)]
                0 <= k < 125 && resp.len() == 64 && (search_fold(deref_state(search_state), resp)
                    matches Some(s) && crc8 == crc8_of(u64_le_bytes(s.0)) && crc8_of(
                    u64_le_bytes(s.0),
                ) != 0 && final(self).pin_hist() == old(self).pin_hist() + wait_for_high_events(k)
                    + reset_tail_events(true) + write_slots_events(8) + search_steps_events(resp)
                    && final(self).delay_hist() == old(self).delay_hist() + repeat_wait(2_000, k)
                    + reset_tail_waits(old(self).cfg()) + write_byte_waits(
                    old(self).cfg(),
                    if only_alarming {
                        COMMAND_ALARM_SEARCH
                    } else {
                        COMMAND_ROM_SEARCH
                    },
                ) + search_steps_waits(old(self).cfg(), s.0, 64))),
    {
        if let Some(state) = search_state {
            if state.discrepancies == 0 {
                return Ok(None);
            }
        }
        let presence = match self.initialization() {
            Ok(presence) => presence,
            Err(e) => {
                return Err(e);
            },
        };
        if !presence {
            return Ok(None);
        }
        let ghost k = choose|k: int|
            0 <= k < 125 && self.pin_hist() == old(self).pin_hist() + wait_for_high_events(k)
                + reset_tail_events(true) && self.delay_hist() == old(self).delay_hist()
                + repeat_wait(2_000, k) + reset_tail_waits(old(self).cfg());
        let command = if only_alarming {
            COMMAND_ALARM_SEARCH
        } else {
            COMMAND_ROM_SEARCH
        };
        match self.write_byte(command) {
            Ok(()) => {},
            Err(e) => {
                return Err(e);
            },
        }
        let ghost resume = deref_state(search_state);
        let ghost h1 = self.pin_hist();
        let ghost d1 = self.delay_hist();
        proof {
            assert(h1 =~= old(self).pin_hist() + wait_for_high_events(k) + reset_tail_events(true)
                + write_slots_events(8));
            assert(d1 =~= old(self).delay_hist() + repeat_wait(2_000, k) + reset_tail_waits(
                old(self).cfg(),
            ) + write_byte_waits(
                old(self).cfg(),
                if only_alarming {
                    COMMAND_ALARM_SEARCH
                } else {
                    COMMAND_ROM_SEARCH
                },
            ));
        }
        let mut rom: u64 = 0;
        let mut discrepancies: u64 = 0;
        let mut last_discrepancy_index: u8 = 0;
        let ghost mut resp: Seq<(bool, bool)> = Seq::empty();
        let mut i: u8 = 0;
        proof {
            assert(h1 + search_steps_events(resp) =~= h1);
            assert(d1 + search_steps_waits(old(self).cfg(), 0u64, 0) =~= d1);
            assert forall|j: int| 0 <= j < 64 implies !u64_bit(0u64, j) by {
                let ju = j as u64;
                assert((0u64 >> ju) & 1 == 0) by (bit_vector);
            }
        }
        while i < 64
            invariant
                i <= 64,
                resp.len() == i as int,
                (match search_state {
                    Some(state) => state.discrepancies != 0,
                    None => true,
                }),
                resume == deref_state(search_state),
                self.cfg() == old(self).cfg(),
                0 <= k < 125,
                h1 == old(self).pin_hist() + wait_for_high_events(k) + reset_tail_events(true)
                    + write_slots_events(8),
                d1 == old(self).delay_hist() + repeat_wait(2_000, k) + reset_tail_waits(
                    old(self).cfg(),
                ) + write_byte_waits(
                    old(self).cfg(),
                    if only_alarming {
                        COMMAND_ALARM_SEARCH
                    } else {
                        COMMAND_ROM_SEARCH
                    },
                ),
                search_fold(resume, resp) == Some((rom, discrepancies, last_discrepancy_index)),
                forall|j: int| i <= j < 64 ==> !u64_bit(rom, j),
                self.pin_hist() == h1 + search_steps_events(resp),
                self.delay_hist() == d1 + search_steps_waits(old(self).cfg(), rom, i as int),
            decreases 64 - i,
        {
            let b1 = match self.read_bit() {
                Ok(bit) => bit,
                Err(e) => {
                    return Err(e);
                },
            };
            let b2 = match self.read_bit() {
                Ok(bit) => bit,
                Err(e) => {
                    return Err(e);
                },
            };
            let (follow, fork, prev_addr_bit, prev_disc_bit) = match search_state {
                Some(state) => (
                    i < state.last_discrepancy_index,
                    i == state.last_discrepancy_index,
                    (state.address >> (i as u64)) & 1 == 1,
                    (state.discrepancies >> (i as u64)) & 1 == 1,
                ),
                None => (false, false, false, false),
            };
            let ghost prev_rom = rom;
            let ghost prev_disc = discrepancies;
            let ghost prev_ld = last_discrepancy_index;
            let ghost prev_resp = resp;
            let chosen: bool;
            if follow {
                // follow up to the last discrepancy, choosing the same bit
                // as the previous pass
                chosen = prev_addr_bit;
                if prev_disc_bit {
                    discrepancies = discrepancies | (1u64 << (i as u64));
                    last_discrepancy_index = i;
                }
            } else if fork {
                // this is the discrepancy bit: 0 was chosen last time, so
                // choose 1 this time; any other response pattern means the
                // bus no longer answers as it did
                if b1 || b2 {
                    proof {
                        assert(fork_phase(resume, i as int) && !follow_phase(resume, i as int));
                        assert(search_step(
                            resume,
                            i as int,
                            rom,
                            discrepancies,
                            last_discrepancy_index,
                            b1,
                            b2,
                        ) is None);
                        assert(self.pin_hist() =~= old(self).pin_hist() + wait_for_high_events(k)
                            + reset_tail_events(true) + write_slots_events(8)
                            + search_steps_events(resp) + read_slot_events(b1) + read_slot_events(
                            b2,
                        ));
                        assert(self.delay_hist() =~= old(self).delay_hist() + repeat_wait(
                            2_000,
                            k,
                        ) + reset_tail_waits(old(self).cfg()) + write_byte_waits(
                            old(self).cfg(),
                            if only_alarming {
                                COMMAND_ALARM_SEARCH
                            } else {
                                COMMAND_ROM_SEARCH
                            },
                        ) + search_steps_waits(old(self).cfg(), rom, i as int) + read_slot_waits(
                            old(self).cfg(),
                        ) + read_slot_waits(old(self).cfg()));
                    }
                    return Err(Error::Ds18b20(Ds18b20Error::NoAttachedDevices));
                }
                chosen = true;
            } else if b1 && b2 {
                // no device responded to the search request
                proof {
                    assert(!fork_phase(resume, i as int) && !follow_phase(resume, i as int));
                    assert(search_step(
                        resume,
                        i as int,
                        rom,
                        discrepancies,
                        last_discrepancy_index,
                        b1,
                        b2,
                    ) is None);
                    assert(self.pin_hist() =~= old(self).pin_hist() + wait_for_high_events(k)
                        + reset_tail_events(true) + write_slots_events(8) + search_steps_events(
                        resp,
                    ) + read_slot_events(b1) + read_slot_events(b2));
                    assert(self.delay_hist() =~= old(self).delay_hist() + repeat_wait(2_000, k)
                        + reset_tail_waits(old(self).cfg()) + write_byte_waits(
                        old(self).cfg(),
                        if only_alarming {
                            COMMAND_ALARM_SEARCH
                        } else {
                            COMMAND_ROM_SEARCH
                        },
                    ) + search_steps_waits(old(self).cfg(), rom, i as int) + read_slot_waits(
                        old(self).cfg(),
                    ) + read_slot_waits(old(self).cfg()));
                }
                return Err(Error::Ds18b20(Ds18b20Error::NoAttachedDevices));
            } else if !b1 && b2 {
                // all remaining devices have a 1 in this position
                chosen = true;
            } else if b1 && !b2 {
                // all remaining devices have a 0 in this position
                chosen = false;
            } else {
                // conflict: choose the lower value and record the intent to
                // explore the 1 branch on a later pass
                chosen = false;
                discrepancies = discrepancies | (1u64 << (i as u64));
                last_discrepancy_index = i;
            }
            if chosen {
                rom = rom | (1u64 << (i as u64));
            }
            match self.write_bit(chosen) {
                Ok(()) => {},
                Err(e) => {
                    return Err(e);
                },
            }
            proof {
                let iu = i as u64;
                assert(iu == i as int as u64);
                if chosen {
                    lemma_u64_or_bit(prev_rom, iu);
                }
                assert forall|j: int| 0 <= j < 64 && j != i as int implies u64_bit(rom, j)
                    == u64_bit(prev_rom, j) by {
                    let ju = j as u64;
                    assert(ju < 64 && ju != iu);
                }
                assert(u64_bit(rom, i as int) == chosen);
                assert(follow == follow_phase(resume, i as int));
                assert(fork == fork_phase(resume, i as int));
                if follow {
                    let st = resume.unwrap();
                    assert(prev_addr_bit == u64_bit(st.address, i as int));
                    assert(prev_disc_bit == u64_bit(st.discrepancies, i as int));
                }
                assert(search_step(resume, i as int, prev_rom, prev_disc, prev_ld, b1, b2)
                    == Some((rom, discrepancies, last_discrepancy_index)));
                resp = prev_resp.push((b1, b2));
                assert(resp.drop_last() =~= prev_resp);
                assert(resp.last() == (b1, b2));
                assert(search_fold(resume, resp) == Some(
                    (rom, discrepancies, last_discrepancy_index),
                ));
                lemma_search_steps_waits_congruent(old(self).cfg(), prev_rom, rom, i as int);
                assert(self.pin_hist() =~= h1 + search_steps_events(resp));
                assert(self.delay_hist() =~= d1 + search_steps_waits(
                    old(self).cfg(),
                    rom,
                    i as int + 1,
                ));
            }
            i = i + 1;
        }
        let state = SearchState { address: rom, discrepancies, last_discrepancy_index };
        match Rom::try_from(rom) {
            Ok(r) => Ok(Some((r, state))),
            Err(e) => {
                proof {
                    assert(self.pin_hist() =~= old(self).pin_hist() + wait_for_high_events(k)
                        + reset_tail_events(true) + write_slots_events(8) + search_steps_events(
                        resp,
                    ));
                    assert(self.delay_hist() =~= old(self).delay_hist() + repeat_wait(2_000, k)
                        + reset_tail_waits(old(self).cfg()) + write_byte_waits(
                        old(self).cfg(),
                        if only_alarming {
                            COMMAND_ALARM_SEARCH
                        } else {
                            COMMAND_ROM_SEARCH
                        },
                    ) + search_steps_waits(old(self).cfg(), rom, 64));
                }
                Err(Error::Ds18b20(e))
            },
        }
    }

    /// Returns a cursor that walks all device addresses on the bus, lowest
    /// to highest in wire order, by repeated search passes.
    pub fn devices(&self, only_alarming: bool) -> (r: Devices)
        ensures
            r == (Devices { state: None, finished: false, only_alarming }),
    {
        Devices { state: None, finished: false, only_alarming }
    }
}

/// A cursor over the devices on the bus: repeated resumable search passes,
/// ending when a pass reports the search exhausted or fails.
#[derive(Clone, Copy, Debug)]
pub struct Devices {
    /// The state the next pass resumes from; `None` before the first pass.
    pub state: Option<SearchState>,
    /// Whether the walk has ended, by exhaustion or by an error.
    pub finished: bool,
    /// Whether only alarming devices take part in the search.
    pub only_alarming: bool,
}

impl Devices {
    /// Performs one search pass against the given driver and returns the
    /// next discovered address, `None` once the walk has ended. The first
    /// error ends the walk.
    pub fn next<T: Pin, U: Delay>(&mut self, driver: &mut Driver<T, U>) -> (r: Option<
        Result<Rom, Error<T::Fault>>,
    >)
        ensures
            final(driver).cfg() == old(driver).cfg(),
            final(self).only_alarming == old(self).only_alarming,
            old(self).finished ==> r is None && *final(self) == *old(self) && *final(driver)
                == *old(driver),
            r is None ==> final(self).finished,
            !old(self).finished && r is None ==> final(self).state is None && (((match old(self).state {
                Some(st) => st.discrepancies == 0,
                None => false,
            }) && final(driver).pin_hist() == old(driver).pin_hist() && final(driver).delay_hist()
                == old(driver).delay_hist()) || (exists|k: int|
                0 <= k < 125 && final(driver).pin_hist() == old(driver).pin_hist()
                    + wait_for_high_events(k) + reset_tail_events(false) && final(driver).delay_hist() == old(driver).delay_hist() + repeat_wait(2_000, k)
                    + reset_tail_waits(old(driver).cfg()))),
            r matches Some(Ok(rom)) ==> !old(self).finished && !final(self).finished && (final(self).state matches Some(state) && crc8_of(u64_le_bytes(state.address)) == 0
                && rom_to_bytes(rom) == u64_le_bytes(state.address) && exists|
                k: int,
                resp: Seq<(bool, bool)>,
            |
                #![auto]
                0 <= k < 125 && resp.len() == 64 && search_fold(old(self).state, resp) == Some(
                    (state.address, state.discrepancies, state.last_discrepancy_index),
                ) && final(driver).pin_hist() == old(driver).pin_hist() + wait_for_high_events(k)
                    + reset_tail_events(true) + write_slots_events(8) + search_steps_events(resp)
                    && final(driver).delay_hist() == old(driver).delay_hist() + repeat_wait(
                    2_000,
                    k,
                ) + reset_tail_waits(old(driver).cfg()) + write_byte_waits(
                    old(driver).cfg(),
                    if old(self).only_alarming {
                        COMMAND_ALARM_SEARCH
                    } else {
                        COMMAND_ROM_SEARCH
                    },
                ) + search_steps_waits(old(driver).cfg(), state.address, 64)),
            r matches Some(Err(e)) ==> final(self).finished && final(self).state is None && (e
                matches Error::Ds18b20(inner) ==> (inner == Ds18b20Error::BusNotHigh || inner
                == Ds18b20Error::NoAttachedDevices || inner matches Ds18b20Error::UnexpectedCrc {
                ..
            }) && (inner == Ds18b20Error::BusNotHigh ==> final(driver).pin_hist() == old(driver).pin_hist() + low_samples(125) && final(driver).delay_hist() == old(driver).delay_hist() + repeat_wait(2_000, 125)) && (inner
                == Ds18b20Error::NoAttachedDevices ==> exists|
                k: int,
                resp: Seq<(bool, bool)>,
                b1: bool,
                b2: bool,
            |
                #![trigger wait_for_high_events(k), search_steps_events(resp),
                    read_slot_events(b1), read_slot_events(b2)]
                0 <= k < 125 && resp.len() < 64 && (search_fold(old(self).state, resp) matches
                    Some(fold) && search_step(
                    old(self).state,
                    resp.len() as int,
                    fold.0,
                    fold.1,
                    fold.2,
                    b1,
                    b2,
                ) is None && final(driver).pin_hist() == old(driver).pin_hist()
                    + wait_for_high_events(k) + reset_tail_events(true) + write_slots_events(8)
                    + search_steps_events(resp) + read_slot_events(b1) + read_slot_events(b2)
                    && final(driver).delay_hist() == old(driver).delay_hist() + repeat_wait(
                    2_000,
                    k,
                ) + reset_tail_waits(old(driver).cfg()) + write_byte_waits(
                    old(driver).cfg(),
                    if old(self).only_alarming {
                        COMMAND_ALARM_SEARCH
                    } else {
                        COMMAND_ROM_SEARCH
                    },
                ) + search_steps_waits(old(driver).cfg(), fold.0, resp.len() as int)
                    + read_slot_waits(old(driver).cfg()) + read_slot_waits(old(driver).cfg())))
                && (inner matches Ds18b20Error::UnexpectedCrc { crc8 } ==> exists|
                k: int,
                resp: Seq<(bool, bool)>,
            |
                #![trigger wait_for_high_events(k), search_steps_events(resp)]
                0 <= k < 125 && resp.len() == 64 && (search_fold(old(self).state, resp) matches
                    Some(fold) && crc8 == crc8_of(u64_le_bytes(fold.0)) && crc8_of(
                    u64_le_bytes(fold.0),
                ) != 0 && final(driver).pin_hist() == old(driver).pin_hist()
                    + wait_for_high_events(k) + reset_tail_events(true) + write_slots_events(8)
                    + search_steps_events(resp) && final(driver).delay_hist() == old(driver).delay_hist() + repeat_wait(2_000, k) + reset_tail_waits(old(driver).cfg())
                    + write_byte_waits(
                    old(driver).cfg(),
                    if old(self).only_alarming {
                        COMMAND_ALARM_SEARCH
                    } else {
                        COMMAND_ROM_SEARCH
                    },
                ) + search_steps_waits(old(driver).cfg(), fold.0, 64)))),
    {
        if self.finished {
            return None;
        }
        let result = match &self.state {
            Some(state) => driver.device_search(Some(state), self.only_alarming),
            None => driver.device_search(None, self.only_alarming),
        };
        match result {
            Ok(Some((rom, state))) => {
                self.state = Some(state);
                Some(Ok(rom))
            },
            Ok(None) => {
                self.state = None;
                self.finished = true;
                None
            },
            Err(e) => {
                self.state = None;
                self.finished = true;
                Some(Err(e))
            },
        }
    }
}

} // verus!
