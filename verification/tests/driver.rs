//! Driver tests against a simulated 1-Wire slave side: a mock pin and
//! delay pair sharing one bus state that interprets the master's timed
//! drive/release/sample actions at the protocol level.

use std::cell::RefCell;
use std::rc::Rc;

use ds18b20::bus::{Delay, Pin, PinEvent};
use ds18b20::crc8::calculate;
use ds18b20::error::{Ds18b20Error, Error};
use ds18b20::rom::Rom;
use ds18b20::commands::memory::{ConvertTemperature, CopyScratchpad, RecallE2};
use ds18b20::scratchpad::{ConfigurationRegister, Resolution, Scratchpad, Triggers};
use ds18b20::search::SearchState;
use ds18b20::transactions::Transaction;
use ds18b20::Driver;

const CMD_ROM_READ: u8 = 0x33;
const CMD_ROM_MATCH: u8 = 0x55;
const CMD_ROM_SKIP: u8 = 0xCC;
const CMD_ROM_SEARCH: u8 = 0xF0;
const CMD_ALARM_SEARCH: u8 = 0xEC;
const CMD_CONVERT: u8 = 0x44;
const CMD_RECALL: u8 = 0xB8;
const CMD_COPY: u8 = 0x48;
const CMD_READ_SCRATCHPAD: u8 = 0xBE;
const CMD_WRITE_SCRATCHPAD: u8 = 0x4E;

#[derive(Clone, Copy, PartialEq)]
enum Phase {
    Idle,
    MatchRom { collected: u64, count: u8 },
    Search { bitpos: u8, halfstep: u8 },
    Recall,
    StreamOut,
    CollectScratchpad { count: u8 },
}

struct SimState {
    elapsed_ns: u64,
    driving_low: bool,
    low_start_ns: u64,
    pending_short: bool,
    after_reset: bool,
    stuck_low: bool,
    devices: Vec<u64>,
    active: Vec<u64>,
    scratchpad: [u8; 9],
    written_scratchpad: Vec<u8>,
    in_byte: u8,
    in_bits: u8,
    out_bits: Vec<bool>,
    recall_busy_polls: Option<u32>,
    recall_polls: u32,
    phase: Phase,
    delays: Vec<u32>,
}

impl SimState {
    fn new(devices: Vec<u64>) -> Self {
        SimState {
            elapsed_ns: 0,
            driving_low: false,
            low_start_ns: 0,
            pending_short: false,
            after_reset: false,
            stuck_low: false,
            devices: devices.clone(),
            active: devices,
            scratchpad: [0; 9],
            written_scratchpad: Vec::new(),
            in_byte: 0,
            in_bits: 0,
            out_bits: Vec::new(),
            recall_busy_polls: None,
            recall_polls: 0,
            phase: Phase::Idle,
            delays: Vec::new(),
        }
    }

    fn bit_of(address: u64, index: u8) -> bool {
        (address >> index) & 1 == 1
    }

    fn queue_bytes(&mut self, bytes: &[u8]) {
        self.out_bits.clear();
        for byte in bytes {
            for bit in 0..8 {
                self.out_bits.push((byte >> bit) & 1 == 1);
            }
        }
        self.out_bits.reverse(); // pop from the back, LSB of byte 0 first
    }

    fn on_set_low(&mut self) {
        if self.pending_short {
            // a short low with no sample in between was a written 1 bit
            self.pending_short = false;
            self.feed_bit(true);
        }
        self.driving_low = true;
        self.low_start_ns = self.elapsed_ns;
    }

    fn on_set_high(&mut self) {
        if !self.driving_low {
            return;
        }
        self.driving_low = false;
        let duration = self.elapsed_ns - self.low_start_ns;
        if duration >= 480_000 {
            // reset pulse: all devices answer with a presence pulse
            self.after_reset = true;
            self.pending_short = false;
            self.active = self.devices.clone();
            self.phase = Phase::Idle;
            self.in_byte = 0;
            self.in_bits = 0;
        } else if duration >= 15_000 {
            // a long low is a written 0 bit
            self.feed_bit(false);
        } else {
            // a short low starts either a read slot or a written 1 bit;
            // a sample before the next drive decides which
            self.pending_short = true;
        }
    }

    fn sample(&mut self) -> bool {
        if self.stuck_low {
            return false;
        }
        if self.driving_low {
            return false;
        }
        if self.after_reset {
            self.after_reset = false;
            return self.devices.is_empty();
        }
        if self.pending_short {
            self.pending_short = false;
            return self.slave_output();
        }
        true
    }

    fn slave_output(&mut self) -> bool {
        match self.phase {
            Phase::Search { bitpos, halfstep } => {
                let all_zero = self
                    .active
                    .iter()
                    .all(|device| !Self::bit_of(*device, bitpos));
                let all_one = self
                    .active
                    .iter()
                    .all(|device| Self::bit_of(*device, bitpos));
                let level = if halfstep == 0 { all_zero } else { all_one };
                self.phase = Phase::Search {
                    bitpos,
                    halfstep: halfstep + 1,
                };
                level
            }
            Phase::Recall => {
                self.recall_polls += 1;
                match self.recall_busy_polls {
                    Some(busy) => self.recall_polls > busy,
                    None => false,
                }
            }
            Phase::StreamOut => self.out_bits.pop().unwrap_or(true),
            _ => true,
        }
    }

    fn feed_bit(&mut self, bit: bool) {
        match self.phase {
            Phase::Search { bitpos, .. } => {
                self.active.retain(|device| Self::bit_of(*device, bitpos) == bit);
                self.phase = Phase::Search {
                    bitpos: bitpos + 1,
                    halfstep: 0,
                };
            }
            Phase::MatchRom { collected, count } => {
                let collected = collected | ((bit as u64) << count);
                if count == 63 {
                    self.active.retain(|device| *device == collected);
                    self.phase = Phase::Idle;
                } else {
                    self.phase = Phase::MatchRom {
                        collected,
                        count: count + 1,
                    };
                }
            }
            Phase::CollectScratchpad { count } => {
                self.in_byte |= (bit as u8) << self.in_bits;
                self.in_bits += 1;
                if self.in_bits == 8 {
                    self.written_scratchpad.push(self.in_byte);
                    self.in_byte = 0;
                    self.in_bits = 0;
                    if count == 2 {
                        self.phase = Phase::Idle;
                    } else {
                        self.phase = Phase::CollectScratchpad { count: count + 1 };
                    }
                }
            }
            _ => {
                self.in_byte |= (bit as u8) << self.in_bits;
                self.in_bits += 1;
                if self.in_bits == 8 {
                    let command = self.in_byte;
                    self.in_byte = 0;
                    self.in_bits = 0;
                    self.dispatch(command);
                }
            }
        }
    }

    fn dispatch(&mut self, command: u8) {
        match command {
            CMD_ROM_SEARCH | CMD_ALARM_SEARCH => {
                self.active = self.devices.clone();
                self.phase = Phase::Search {
                    bitpos: 0,
                    halfstep: 0,
                };
            }
            CMD_ROM_READ => {
                let address = self.devices.first().copied().unwrap_or(0);
                self.queue_bytes(&address.to_le_bytes());
                self.phase = Phase::StreamOut;
            }
            CMD_ROM_MATCH => {
                self.phase = Phase::MatchRom {
                    collected: 0,
                    count: 0,
                };
            }
            CMD_ROM_SKIP => {
                self.phase = Phase::Idle;
            }
            CMD_RECALL => {
                self.recall_polls = 0;
                self.phase = Phase::Recall;
            }
            CMD_READ_SCRATCHPAD => {
                let scratchpad = self.scratchpad;
                self.queue_bytes(&scratchpad);
                self.phase = Phase::StreamOut;
            }
            CMD_WRITE_SCRATCHPAD => {
                self.phase = Phase::CollectScratchpad { count: 0 };
            }
            CMD_CONVERT | CMD_COPY => {
                self.phase = Phase::Idle;
            }
            _ => {
                self.phase = Phase::Idle;
            }
        }
    }
}

#[derive(Clone)]
struct SimPin {
    state: Rc<RefCell<SimState>>,
}

#[derive(Clone)]
struct SimDelay {
    state: Rc<RefCell<SimState>>,
}

impl Pin for SimPin {
    type Fault = ();

    fn history(&self) -> vstd::prelude::Seq<PinEvent> {
        unreachable!()
    }

    fn set_low(&mut self) -> Result<(), ()> {
        self.state.borrow_mut().on_set_low();
        Ok(())
    }

    fn set_high(&mut self) -> Result<(), ()> {
        self.state.borrow_mut().on_set_high();
        Ok(())
    }

    fn is_high(&mut self) -> Result<bool, ()> {
        Ok(self.state.borrow_mut().sample())
    }

    fn is_low(&mut self) -> Result<bool, ()> {
        Ok(!self.state.borrow_mut().sample())
    }
}

impl Delay for SimDelay {
    fn waits(&self) -> vstd::prelude::Seq<u32> {
        unreachable!()
    }

    fn delay_ns(&mut self, ns: u32) {
        let mut state = self.state.borrow_mut();
        state.elapsed_ns += ns as u64;
        state.delays.push(ns);
    }
}

fn sim_driver(devices: Vec<u64>) -> (Driver<SimPin, SimDelay>, Rc<RefCell<SimState>>) {
    let state = Rc::new(RefCell::new(SimState::new(devices)));
    let pin = SimPin {
        state: state.clone(),
    };
    let delay = SimDelay {
        state: state.clone(),
    };
    let driver = Driver::new(pin, delay).unwrap();
    (driver, state)
}

/// A CRC-valid ROM code with the thermometer family code and this serial.
fn valid_rom(serial: [u8; 6]) -> u64 {
    let mut bytes = [0u8; 8];
    bytes[0] = 0x28;
    bytes[1..7].copy_from_slice(&serial);
    bytes[7] = calculate(&bytes[..7]);
    u64::from_le_bytes(bytes)
}

#[test]
fn initialization_reports_presence() {
    let (mut driver, _) = sim_driver(vec![valid_rom([1, 0, 0, 0, 0, 0])]);
    assert_eq!(driver.initialization(), Ok(true));

    let (mut driver, _) = sim_driver(vec![]);
    assert_eq!(driver.initialization(), Ok(false));
}

#[test]
fn initialization_fails_on_stuck_low_bus() {
    let (mut driver, state) = sim_driver(vec![]);
    state.borrow_mut().stuck_low = true;
    assert_eq!(
        driver.initialization(),
        Err(Error::Ds18b20(Ds18b20Error::BusNotHigh))
    );
}

#[test]
fn write_and_read_slot_timing_is_symmetric() {
    // for both bit values the slot lasts the same fixed 70 us at standard
    // speed, and a read slot matches it
    let (mut driver, state) = sim_driver(vec![]);
    state.borrow_mut().delays.clear();
    driver.write_bit(true).unwrap();
    let one: u64 = state.borrow().delays.iter().map(|ns| *ns as u64).sum();
    state.borrow_mut().delays.clear();
    driver.write_bit(false).unwrap();
    let zero: u64 = state.borrow().delays.iter().map(|ns| *ns as u64).sum();
    state.borrow_mut().delays.clear();
    driver.read_bit().unwrap();
    let read: u64 = state.borrow().delays.iter().map(|ns| *ns as u64).sum();
    assert_eq!(one, 70_000);
    assert_eq!(zero, 70_000);
    assert_eq!(read, 70_000);
}

#[test]
fn read_rom_returns_the_single_device() {
    let address = valid_rom([0xAB, 0xCD, 0xEF, 0x01, 0x02, 0x03]);
    let (mut driver, _) = sim_driver(vec![address]);
    assert_eq!(driver.initialization(), Ok(true));
    let rom = driver.read_rom().unwrap();
    assert_eq!(rom.to_u64(), address);
    assert_eq!(rom.family_code, 0x28);
}

#[test]
fn search_rom_finds_a_device() {
    let address = valid_rom([7, 6, 5, 4, 3, 2]);
    let (mut driver, _) = sim_driver(vec![address]);
    let rom = driver.search_rom().unwrap();
    assert_eq!(rom.to_u64(), address);
}

#[test]
fn search_rom_without_devices_reports_none_attached() {
    let (mut driver, _) = sim_driver(vec![]);
    assert_eq!(
        driver.search_rom(),
        Err(Error::Ds18b20(Ds18b20Error::NoAttachedDevices))
    );
}

/// Wire order: bit 0 is compared first, a 0 sorts before a 1.
fn wire_lt(a: u64, b: u64) -> bool {
    for i in 0..64 {
        let ab = (a >> i) & 1;
        let bb = (b >> i) & 1;
        if ab != bb {
            return ab < bb;
        }
    }
    false
}

#[test]
fn device_search_yields_devices_in_ascending_order() {
    // three devices: repeated passes from an empty state yield them in
    // ascending wire order and a final pass reports the search exhausted
    let d1 = valid_rom([0x04, 0, 0, 0, 0, 0]);
    let d2 = valid_rom([0x02, 0, 0, 0, 0, 0]);
    let d3 = valid_rom([0x01, 0, 0, 0, 0, 0]);
    let (mut driver, _) = sim_driver(vec![d1, d2, d3]);

    let mut found: Vec<u64> = Vec::new();
    let mut state: Option<SearchState> = None;
    loop {
        let result = driver.device_search(state.as_ref(), false).unwrap();
        match result {
            Some((rom, next_state)) => {
                found.push(rom.to_u64());
                state = Some(next_state);
            }
            None => break,
        }
    }
    assert_eq!(found.len(), 3);
    assert!(wire_lt(found[0], found[1]));
    assert!(wire_lt(found[1], found[2]));
    let mut expected = vec![d1, d2, d3];
    expected.sort();
    let mut sorted_found = found.clone();
    sorted_found.sort();
    assert_eq!(sorted_found, expected);
}

#[test]
fn device_search_resolves_two_device_collision_in_two_passes() {
    let a = valid_rom([0x10, 0x20, 0x30, 0x40, 0x50, 0x60]);
    let b = valid_rom([0x11, 0x20, 0x30, 0x40, 0x50, 0x60]);
    let (mut driver, _) = sim_driver(vec![a, b]);

    let (first, state1) = driver.device_search(None, false).unwrap().unwrap();
    let (second, state2) = driver
        .device_search(Some(&state1), false)
        .unwrap()
        .unwrap();
    // both addresses come back uncorrupted, in wire order
    assert!(wire_lt(first.to_u64(), second.to_u64()));
    let mut found = vec![first.to_u64(), second.to_u64()];
    found.sort();
    let mut expected = vec![a, b];
    expected.sort();
    assert_eq!(found, expected);
    // the conflict mask is exhausted after exactly two passes
    assert_eq!(state2.discrepancies, 0);
    assert_eq!(driver.device_search(Some(&state2), false), Ok(None));
}

#[test]
fn devices_cursor_walks_the_bus() {
    let d1 = valid_rom([0x04, 0, 0, 0, 0, 0]);
    let d2 = valid_rom([0x02, 0, 0, 0, 0, 0]);
    let (mut driver, _) = sim_driver(vec![d1, d2]);
    let mut cursor = driver.devices(false);
    let mut found: Vec<u64> = Vec::new();
    while let Some(result) = cursor.next(&mut driver) {
        found.push(result.unwrap().to_u64());
    }
    assert_eq!(found.len(), 2);
    assert!(wire_lt(found[0], found[1]));
    assert!(cursor.next(&mut driver).is_none());
}

#[test]
fn recall_eeprom_succeeds_when_device_reports_ready() {
    // the slave reports busy for 9,999 us worth of polls (142 read slots
    // of 70 us), then ready: the last poll of the budget succeeds
    let (mut driver, state) = sim_driver(vec![valid_rom([1, 2, 3, 4, 5, 6])]);
    state.borrow_mut().recall_busy_polls = Some(142);
    assert_eq!(driver.initialization(), Ok(true));
    driver.skip_rom().unwrap();
    assert_eq!(driver.recall_eeprom(), Ok(()));
}

#[test]
fn recall_eeprom_times_out_when_device_never_ready() {
    let (mut driver, state) = sim_driver(vec![valid_rom([1, 2, 3, 4, 5, 6])]);
    state.borrow_mut().recall_busy_polls = None;
    assert_eq!(driver.initialization(), Ok(true));
    driver.skip_rom().unwrap();
    assert_eq!(
        driver.recall_eeprom(),
        Err(Error::Ds18b20(Ds18b20Error::Timeout))
    );
}

#[test]
fn read_scratchpad_decodes_the_device_image() {
    let (mut driver, state) = sim_driver(vec![valid_rom([1, 2, 3, 4, 5, 6])]);
    let mut bytes: [u8; 9] = [0xD0, 0x07, 0x20, 0x10, 0b01111111, 0, 0, 0, 0];
    bytes[8] = calculate(&bytes[..8]);
    state.borrow_mut().scratchpad = bytes;
    assert_eq!(driver.initialization(), Ok(true));
    driver.skip_rom().unwrap();
    let scratchpad = driver.read_scratchpad().unwrap();
    assert_eq!(scratchpad.temperature, 2000);
    assert_eq!(scratchpad.triggers.high, 0x20);
    assert_eq!(scratchpad.triggers.low, 0x10);
}

#[test]
fn read_scratchpad_rejects_a_corrupted_image() {
    let (mut driver, state) = sim_driver(vec![valid_rom([1, 2, 3, 4, 5, 6])]);
    let bytes: [u8; 9] = [0xD0, 0x07, 0x20, 0x10, 0b01111111, 0, 0, 0, 0x13];
    let crc8 = calculate(&bytes);
    assert_ne!(crc8, 0);
    state.borrow_mut().scratchpad = bytes;
    assert_eq!(driver.initialization(), Ok(true));
    driver.skip_rom().unwrap();
    assert_eq!(
        driver.read_scratchpad(),
        Err(Error::Ds18b20(Ds18b20Error::UnexpectedCrc { crc8 }))
    );
}

#[test]
fn write_scratchpad_sends_triggers_and_configuration() {
    let (mut driver, state) = sim_driver(vec![valid_rom([1, 2, 3, 4, 5, 6])]);
    assert_eq!(driver.initialization(), Ok(true));
    driver.skip_rom().unwrap();
    let scratchpad = Scratchpad {
        temperature: 0,
        configuration_register: ConfigurationRegister {
            resolution: Resolution::Nine,
        },
        triggers: Triggers { high: 40, low: -12 },
        crc: 0,
    };
    driver.write_scratchpad(scratchpad).unwrap();
    // flush the trailing written 1 bit, if any, with a fresh reset
    assert_eq!(driver.initialization(), Ok(true));
    let written = state.borrow().written_scratchpad.clone();
    assert_eq!(written, vec![40u8, 0xF4u8, 0b00011111u8]);
}

#[test]
fn match_rom_silences_other_devices() {
    let a = valid_rom([0x10, 0x20, 0x30, 0x40, 0x50, 0x60]);
    let b = valid_rom([0x11, 0x20, 0x30, 0x40, 0x50, 0x60]);
    let (mut driver, state) = sim_driver(vec![a, b]);
    assert_eq!(driver.initialization(), Ok(true));
    let rom = Rom::try_from(a).unwrap();
    driver.match_rom(rom).unwrap();
    // flush the trailing written 1 bit, if any
    driver.write_bit(false).unwrap();
    let active = state.borrow().active.clone();
    assert_eq!(active, vec![a]);
}

#[test]
fn transaction_addresses_one_device_or_broadcasts() {
    let a = valid_rom([9, 8, 7, 6, 5, 4]);
    let (mut driver, _) = sim_driver(vec![a]);
    let transaction = Transaction {
        rom: Some(Rom::try_from(a).unwrap()),
    };
    assert_eq!(transaction.address(&mut driver), Ok(true));
    let broadcast = Transaction { rom: None };
    assert_eq!(broadcast.address(&mut driver), Ok(true));

    let (mut driver, _) = sim_driver(vec![]);
    assert_eq!(broadcast.address(&mut driver), Ok(false));
}

#[test]
fn commands_execute_against_the_bus() {
    let (mut driver, state) = sim_driver(vec![valid_rom([1, 1, 1, 1, 1, 1])]);
    state.borrow_mut().recall_busy_polls = Some(0);
    assert_eq!(driver.initialization(), Ok(true));
    driver.skip_rom().unwrap();
    assert_eq!(ConvertTemperature.execute(&mut driver), Ok(()));
    assert_eq!(driver.initialization(), Ok(true));
    driver.skip_rom().unwrap();
    assert_eq!(CopyScratchpad.execute(&mut driver), Ok(()));
    assert_eq!(driver.initialization(), Ok(true));
    driver.skip_rom().unwrap();
    assert_eq!(RecallE2.execute(&mut driver), Ok(()));
}

#[test]
fn device_handle_checks_the_family_code() {
    let rom = Rom::try_from(valid_rom([1, 2, 3, 4, 5, 6])).unwrap();
    let device = ds18b20::Ds18b20::new(rom).unwrap();
    assert_eq!(*device.rom(), rom);

    let mut bytes = [0u8; 8];
    bytes[0] = 0x10;
    bytes[7] = calculate(&bytes[..7]);
    let foreign = Rom::try_from_bytes(bytes).unwrap();
    assert!(matches!(
        ds18b20::Ds18b20::new(foreign),
        Err(Ds18b20Error::UnexpectedFamilyCode { family_code: 0x10 })
    ));
}

#[test]
fn transaction_convert_and_copy_run_to_completion() {
    let a = valid_rom([3, 3, 3, 3, 3, 3]);
    let (mut driver, _) = sim_driver(vec![a]);
    let transaction = Transaction {
        rom: Some(Rom::try_from(a).unwrap()),
    };
    assert_eq!(transaction.convert(&mut driver), Ok(true));
    assert_eq!(transaction.copy(&mut driver), Ok(true));

    let (mut driver, _) = sim_driver(vec![]);
    assert_eq!(transaction.convert(&mut driver), Ok(false));
    assert_eq!(transaction.copy(&mut driver), Ok(false));
}

#[test]
fn transaction_recall_polls_until_ready() {
    let a = valid_rom([4, 4, 4, 4, 4, 4]);
    let (mut driver, state) = sim_driver(vec![a]);
    state.borrow_mut().recall_busy_polls = Some(5);
    let transaction = Transaction { rom: None };
    assert_eq!(transaction.recall(&mut driver), Ok(true));

    let (mut driver, state) = sim_driver(vec![a]);
    state.borrow_mut().recall_busy_polls = None;
    assert_eq!(
        transaction.recall(&mut driver),
        Err(Error::Ds18b20(Ds18b20Error::Timeout))
    );
}

#[test]
fn transaction_read_and_write_scratchpad() {
    let a = valid_rom([5, 5, 5, 5, 5, 5]);
    let (mut driver, state) = sim_driver(vec![a]);
    let mut bytes: [u8; 9] = [0x50, 0x05, 0x30, 0x20, 0b01111111, 0, 0, 0, 0];
    bytes[8] = calculate(&bytes[..8]);
    state.borrow_mut().scratchpad = bytes;
    let transaction = Transaction {
        rom: Some(Rom::try_from(a).unwrap()),
    };
    let scratchpad = transaction.read(&mut driver).unwrap().unwrap();
    assert_eq!(scratchpad.temperature, 0x0550);

    let image = Scratchpad {
        temperature: 0,
        configuration_register: ConfigurationRegister {
            resolution: Resolution::Eleven,
        },
        triggers: Triggers { high: 1, low: -1 },
        crc: 0,
    };
    assert_eq!(transaction.write(&mut driver, image), Ok(true));
    // flush the trailing written 1 bit with a fresh reset
    assert_eq!(driver.initialization(), Ok(true));
    let written = state.borrow().written_scratchpad.clone();
    assert_eq!(written, vec![1u8, 0xFFu8, 0b01011111u8]);
}
