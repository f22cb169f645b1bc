//! The 9-byte scratchpad image: 2 bytes raw temperature, high and low
//! trigger bytes, the configuration register, 3 reserved bytes and a CRC8
//! byte. A valid image has CRC8 remainder zero over all 9 bytes.

use vstd::prelude::*;

use crate::crc8;
use crate::crc8::crc8_of;
use crate::error::Ds18b20Error;

verus! {

pub const NINE: u8 = 0b00011111;

pub const TEN: u8 = 0b00111111;

pub const ELEVEN: u8 = 0b01011111;

pub const TWELVE: u8 = 0b01111111;

/// Max conversion time, up to 750 ms.
const CONVERSION_TIME_NS: u32 = 750_000_000;

/// Scratchpad. The temperature is a signed fixed-point value in sixteenths
/// of a degree Celsius.
#[derive(Clone, Copy, Debug, PartialEq, Eq, Structural)]
pub struct Scratchpad {
    /// Decoded temperature, in sixteenths of a degree Celsius.
    pub temperature: i32,
    pub configuration_register: ConfigurationRegister,
    pub triggers: Triggers,
    pub crc: u8,
}

/// Configuration register
#[derive(Clone, Copy, Debug, PartialEq, Eq, Structural)]
pub struct ConfigurationRegister {
    pub resolution: Resolution,
}

/// Temperature resolution: 9, 10, 11 or 12 bits.
#[derive(Clone, Copy, Debug, PartialEq, Eq, Structural)]
pub enum Resolution {
    Nine,
    Ten,
    Eleven,
    Twelve,
}

/// Temperature triggers: high and low.
#[derive(Clone, Copy, Debug, PartialEq, Eq, Structural)]
pub struct Triggers {
    pub high: i8,
    pub low: i8,
}

/// The resolution encoded by a configuration byte, if any: only four fixed
/// bit patterns are valid.
pub open spec fn spec_resolution_of(value: u8) -> Option<Resolution> {
    if value == NINE {
        Some(Resolution::Nine)
    } else if value == TEN {
        Some(Resolution::Ten)
    } else if value == ELEVEN {
        Some(Resolution::Eleven)
    } else if value == TWELVE {
        Some(Resolution::Twelve)
    } else {
        None
    }
}

/// The configuration byte encoding a resolution.
pub open spec fn spec_resolution_byte(resolution: Resolution) -> u8 {
    match resolution {
        Resolution::Nine => NINE,
        Resolution::Ten => TEN,
        Resolution::Eleven => ELEVEN,
        Resolution::Twelve => TWELVE,
    }
}

/// The weight, in sixteenths of a degree per raw count, of the raw
/// temperature reading at the given resolution.
pub open spec fn spec_temperature_weight(resolution: Resolution) -> int {
    match resolution {
        Resolution::Nine => 8,
        Resolution::Ten => 4,
        Resolution::Eleven => 2,
        Resolution::Twelve => 1,
    }
}

/// The signed 16-bit raw reading held by the two temperature bytes.
pub open spec fn spec_temperature_raw(msb: u8, lsb: u8) -> int {
    if msb >= 0x80 {
        (msb as int) * 256 + (lsb as int) - 65536
    } else {
        (msb as int) * 256 + (lsb as int)
    }
}

/// The decoded temperature, in sixteenths of a degree Celsius.
pub open spec fn spec_temperature(msb: u8, lsb: u8, resolution: Resolution) -> int {
    spec_temperature_raw(msb, lsb) * spec_temperature_weight(resolution)
}

/// The scratchpad decoded from its 9 wire bytes, assuming the configuration
/// byte is one of the four valid patterns.
pub open spec fn spec_scratchpad(bytes: Seq<u8>) -> Scratchpad {
    let resolution = spec_resolution_of(bytes[4]).unwrap();
    Scratchpad {
        temperature: spec_temperature(bytes[1], bytes[0], resolution) as i32,
        configuration_register: ConfigurationRegister { resolution },
        triggers: Triggers { high: bytes[2] as i8, low: bytes[3] as i8 },
        crc: bytes[8],
    }
}

impl ConfigurationRegister {
    /// Decodes a configuration byte; fails exactly when the byte is none of
    /// the four valid resolution patterns.
    pub fn try_from(value: u8) -> (r: Result<Self, Ds18b20Error>)
        ensures
            r is Ok <==> spec_resolution_of(value) is Some,
            r matches Ok(c) ==> c.resolution == spec_resolution_of(value).unwrap(),
            r matches Err(e) ==> e == (Ds18b20Error::UnexpectedConfigurationRegister {
                configuration_register: value,
            }),
    {
        match value {
            NINE => Ok(Self { resolution: Resolution::Nine }),
            TEN => Ok(Self { resolution: Resolution::Ten }),
            ELEVEN => Ok(Self { resolution: Resolution::Eleven }),
            TWELVE => Ok(Self { resolution: Resolution::Twelve }),
            resolution => Err(
                Ds18b20Error::UnexpectedConfigurationRegister {
                    configuration_register: resolution,
                },
            ),
        }
    }

    /// Re-encodes this register to its configuration byte.
    pub fn to_byte(&self) -> (r: u8)
        ensures
            r == spec_resolution_byte(self.resolution),
    {
        match self.resolution {
            Resolution::Nine => NINE,
            Resolution::Ten => TEN,
            Resolution::Eleven => ELEVEN,
            Resolution::Twelve => TWELVE,
        }
    }
}

impl Default for ConfigurationRegister {
    fn default() -> (r: Self)
        ensures
            r == (ConfigurationRegister { resolution: Resolution::Twelve }),
    {
        ConfigurationRegister { resolution: Resolution::Twelve }
    }
}

impl Resolution {
    /// Worst-case conversion time (ns): 1/8, 1/4, 1/2 or all of the maximum
    /// 750 ms, by resolution.
    pub fn conversion_time(&self) -> (r: u32)
        ensures
            r == spec_conversion_time(*self),
    {
        match self {
            Resolution::Nine => CONVERSION_TIME_NS / 8,
            Resolution::Ten => CONVERSION_TIME_NS / 4,
            Resolution::Eleven => CONVERSION_TIME_NS / 2,
            Resolution::Twelve => CONVERSION_TIME_NS,
        }
    }
}

/// Worst-case conversion time in nanoseconds by resolution.
pub open spec fn spec_conversion_time(resolution: Resolution) -> u32 {
    match resolution {
        Resolution::Nine => 93_750_000,
        Resolution::Ten => 187_500_000,
        Resolution::Eleven => 375_000_000,
        Resolution::Twelve => 750_000_000,
    }
}

impl Default for Resolution {
    fn default() -> (r: Self)
        ensures
            r == Resolution::Twelve,
    {
        Resolution::Twelve
    }
}

/// Decodes the two raw temperature bytes at the given resolution, returning
/// sixteenths of a degree Celsius.
pub fn to_temperature(msb: u8, lsb: u8, resolution: Resolution) -> (r: i32)
    ensures
        r == spec_temperature(msb, lsb, resolution),
{
    let combined: u32 = (msb as u32) * 256 + (lsb as u32);
    let raw: i32 = if combined >= 32768 {
        -((65536 - combined) as i32)
    } else {
        combined as i32
    };
    let weight: i32 = match resolution {
        Resolution::Nine => 8,
        Resolution::Ten => 4,
        Resolution::Eleven => 2,
        Resolution::Twelve => 1,
    };
    raw * weight
}

impl Scratchpad {
    /// Decodes a scratchpad from its 9 wire bytes. Fails with a checksum
    /// mismatch exactly when the CRC8 remainder over the bytes is nonzero,
    /// and otherwise with an invalid-configuration condition exactly when
    /// byte 4 is none of the four valid resolution patterns.
    pub fn try_from_bytes(value: [u8; 9]) -> (r: Result<Self, Ds18b20Error>)
        ensures
            r is Ok <==> crc8_of(value@) == 0 && spec_resolution_of(value@[4]) is Some,
            r matches Ok(sp) ==> sp == spec_scratchpad(value@),
            r matches Err(e) ==> (if crc8_of(value@) != 0 {
                e == (Ds18b20Error::UnexpectedCrc { crc8: crc8_of(value@) })
            } else {
                e == (Ds18b20Error::UnexpectedConfigurationRegister {
                    configuration_register: value@[4],
                })
            }),
    {
        match crc8::check(value.as_slice()) {
            Ok(()) => {
                let configuration_register = match ConfigurationRegister::try_from(value[4]) {
                    Ok(c) => c,
                    Err(e) => {
                        return Err(e);
                    },
                };
                Ok(
                    Scratchpad {
                        temperature: to_temperature(
                            value[1],
                            value[0],
                            configuration_register.resolution,
                        ),
                        triggers: Triggers { high: value[2] as i8, low: value[3] as i8 },
                        configuration_register,
                        crc: value[8],
                    },
                )
            },
            Err(e) => Err(e),
        }
    }
}

/// Law: each of the four valid configuration byte patterns decodes to its
/// resolution and re-encodes to the identical byte, and every other byte
/// value decodes to nothing.
pub proof fn lemma_configuration_register_round_trip()
    ensures
        forall|resolution: Resolution|
            spec_resolution_of(#[trigger] spec_resolution_byte(resolution)) == Some(resolution),
        forall|value: u8|
            #[trigger] spec_resolution_of(value) is Some ==> spec_resolution_byte(
                spec_resolution_of(value).unwrap(),
            ) == value,
{
}

} // verus!
