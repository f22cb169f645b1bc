//! Error taxonomy: host-capability faults and protocol-level conditions.

use vstd::prelude::*;

verus! {

/// Driver error: either a fault of the host pin capability, or a
/// protocol-level condition raised by the engine itself.
#[derive(Clone, Copy, Debug, PartialEq, Eq)]
pub enum Error<T> {
    /// Propagated verbatim from the host digital I/O capability; fatal for the
    /// in-progress transaction.
    Pin(T),
    /// A protocol-level condition.
    Ds18b20(Ds18b20Error),
}

/// Protocol-level conditions.
#[derive(Clone, Copy, Debug, PartialEq, Eq, Structural)]
pub enum Ds18b20Error {
    /// The bus was expected to be pulled high by the pull-up resistor, but it
    /// never went high within the bounded wait.
    BusNotHigh,
    /// There are no devices attached to the 1-Wire bus.
    NoAttachedDevices,
    /// A bounded poll was exhausted before the device reported ready.
    Timeout,
    /// Received data failed CRC validation; carries the computed remainder.
    UnexpectedCrc { crc8: u8 },
    /// A ROM code carried a family code other than the expected one.
    UnexpectedFamilyCode { family_code: u8 },
    /// A scratchpad configuration byte matched no known resolution encoding.
    UnexpectedConfigurationRegister { configuration_register: u8 },
}

} // verus!
