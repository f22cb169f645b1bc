use ds18b20::crc8::calculate;
use ds18b20::error::Ds18b20Error;
use ds18b20::scratchpad::{
    to_temperature, ConfigurationRegister, Resolution, Scratchpad, Triggers, ELEVEN, NINE, TEN,
    TWELVE,
};

#[test]
fn configuration_register() {
    assert_eq!(
        Err(Ds18b20Error::UnexpectedConfigurationRegister {
            configuration_register: 0b0_00_11110
        }),
        ConfigurationRegister::try_from(0b0_00_11110),
    );
    assert_eq!(
        Err(Ds18b20Error::UnexpectedConfigurationRegister {
            configuration_register: 0b0_00_11101
        }),
        ConfigurationRegister::try_from(0b0_00_11101),
    );
    assert_eq!(
        Err(Ds18b20Error::UnexpectedConfigurationRegister {
            configuration_register: 0b0_00_11011
        }),
        ConfigurationRegister::try_from(0b0_00_11011),
    );
    assert_eq!(
        Err(Ds18b20Error::UnexpectedConfigurationRegister {
            configuration_register: 0b0_00_10111
        }),
        ConfigurationRegister::try_from(0b0_00_10111),
    );
    assert_eq!(
        Err(Ds18b20Error::UnexpectedConfigurationRegister {
            configuration_register: 0b0_00_01111
        }),
        ConfigurationRegister::try_from(0b0_00_01111),
    );
    assert_eq!(
        Err(Ds18b20Error::UnexpectedConfigurationRegister {
            configuration_register: 0b1_00_11111
        }),
        ConfigurationRegister::try_from(0b1_00_11111),
    );
}

#[test]
fn configuration_register_round_trip() {
    // each of the four valid patterns decodes to its resolution and
    // re-encodes to the identical byte
    for (byte, resolution) in [
        (NINE, Resolution::Nine),
        (TEN, Resolution::Ten),
        (ELEVEN, Resolution::Eleven),
        (TWELVE, Resolution::Twelve),
    ] {
        let register = ConfigurationRegister::try_from(byte).unwrap();
        assert_eq!(register.resolution, resolution);
        assert_eq!(register.to_byte(), byte);
    }
}

#[test]
fn temperature() {
    // the decoded value is in sixteenths of a degree Celsius
    assert_eq!(125.0, to_temperature(0x07, 0xD0, Resolution::Twelve) as f32 / 16.0);
    assert_eq!(85.0, to_temperature(0x05, 0x50, Resolution::Twelve) as f32 / 16.0);
    assert_eq!(25.0625, to_temperature(0x01, 0x91, Resolution::Twelve) as f32 / 16.0);
    assert_eq!(10.125, to_temperature(0x00, 0xA2, Resolution::Twelve) as f32 / 16.0);
    assert_eq!(0.5, to_temperature(0x00, 0x08, Resolution::Twelve) as f32 / 16.0);
    assert_eq!(0.0, to_temperature(0x00, 0x00, Resolution::Twelve) as f32 / 16.0);
    assert_eq!(-0.5, to_temperature(0xFF, 0xF8, Resolution::Twelve) as f32 / 16.0);
    assert_eq!(-10.125, to_temperature(0xFF, 0x5E, Resolution::Twelve) as f32 / 16.0);
    assert_eq!(-25.0625, to_temperature(0xFE, 0x6F, Resolution::Twelve) as f32 / 16.0);
    assert_eq!(-55.0, to_temperature(0xFC, 0x90, Resolution::Twelve) as f32 / 16.0);
}

#[test]
fn temperature_resolution_weights() {
    // the raw reading is weighted by the resolution: one raw count is
    // 8, 4, 2 or 1 sixteenths at 9, 10, 11 and 12 bits
    assert_eq!(to_temperature(0x00, 0x01, Resolution::Nine), 8);
    assert_eq!(to_temperature(0x00, 0x01, Resolution::Ten), 4);
    assert_eq!(to_temperature(0x00, 0x01, Resolution::Eleven), 2);
    assert_eq!(to_temperature(0x00, 0x01, Resolution::Twelve), 1);
}

#[test]
fn conversion_time() {
    assert_eq!(Resolution::Nine.conversion_time(), 93_750_000);
    assert_eq!(Resolution::Ten.conversion_time(), 187_500_000);
    assert_eq!(Resolution::Eleven.conversion_time(), 375_000_000);
    assert_eq!(Resolution::Twelve.conversion_time(), 750_000_000);
}

#[test]
fn scratchpad_decodes_from_bytes() {
    // 125 degrees, triggers 0x55 / -10, 12-bit resolution
    let mut bytes: [u8; 9] = [0xD0, 0x07, 0x55, 0xF6, TWELVE, 0, 0, 0, 0];
    bytes[8] = calculate(&bytes[..8]);
    let scratchpad = Scratchpad::try_from_bytes(bytes).unwrap();
    assert_eq!(scratchpad.temperature, 2000);
    assert_eq!(
        scratchpad.configuration_register,
        ConfigurationRegister {
            resolution: Resolution::Twelve
        }
    );
    assert_eq!(
        scratchpad.triggers,
        Triggers {
            high: 0x55,
            low: -10
        }
    );
    assert_eq!(scratchpad.crc, bytes[8]);
}

#[test]
fn scratchpad_rejects_bad_checksum() {
    let bytes: [u8; 9] = [0xD0, 0x07, 0x55, 0xF6, TWELVE, 0, 0, 0, 0];
    let crc8 = calculate(&bytes);
    assert_ne!(crc8, 0);
    assert_eq!(
        Scratchpad::try_from_bytes(bytes),
        Err(Ds18b20Error::UnexpectedCrc { crc8 })
    );
}

#[test]
fn scratchpad_rejects_bad_configuration() {
    let mut bytes: [u8; 9] = [0xD0, 0x07, 0x55, 0xF6, 0b0_00_11110, 0, 0, 0, 0];
    bytes[8] = calculate(&bytes[..8]);
    assert_eq!(
        Scratchpad::try_from_bytes(bytes),
        Err(Ds18b20Error::UnexpectedConfigurationRegister {
            configuration_register: 0b0_00_11110
        })
    );
}
