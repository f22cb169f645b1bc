use ds18b20::crc8::calculate;
use ds18b20::error::Ds18b20Error;
use ds18b20::rom::Rom;

#[test]
fn rom_test() {
    assert_eq!(
        Ok(Rom {
            family_code: 0x28,
            serial_number: [0x00; 6],
            crc: 0x1E,
        }),
        Rom::try_from(0x1E_000000000000_28)
    );
    assert_eq!(
        Ok(Rom {
            family_code: 0x28,
            serial_number: [0xFF; 6],
            crc: 0xC,
        }),
        Rom::try_from(0x0C_FFFFFFFFFFFF_28)
    );
}

#[test]
fn rom_round_trip() {
    // encoding a valid address to 8 bytes and decoding back is the identity
    let rom = Rom::try_from(0x1E_000000000000_28).unwrap();
    assert_eq!(rom.to_u64(), 0x1E_000000000000_28);
    assert_eq!(Rom::try_from_bytes(rom.to_bytes()), Ok(rom));

    let rom = Rom::try_from(0x0C_FFFFFFFFFFFF_28).unwrap();
    assert_eq!(rom.to_u64(), 0x0C_FFFFFFFFFFFF_28);
    assert_eq!(Rom::try_from_bytes(rom.to_bytes()), Ok(rom));
}

#[test]
fn rom_rejects_bad_checksum() {
    // any 8-byte sequence with a nonzero CRC8 remainder is refused, and the
    // error carries the computed remainder
    let bytes: [u8; 8] = [0x28, 0, 0, 0, 0, 0, 0, 0x1F];
    let crc8 = calculate(&bytes);
    assert_ne!(crc8, 0);
    assert_eq!(
        Rom::try_from_bytes(bytes),
        Err(Ds18b20Error::UnexpectedCrc { crc8 })
    );
    assert_eq!(
        Rom::try_from(0x1F_000000000000_28),
        Err(Ds18b20Error::UnexpectedCrc { crc8 })
    );
}
