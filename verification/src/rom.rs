//! The 8-byte device address (lasered ROM code): 1 byte family code, 6 bytes
//! serial number, 1 byte CRC8 of the preceding 7 bytes. A valid address has
//! CRC8 remainder zero over all 8 bytes.

use vstd::prelude::*;

use crate::crc8;
use crate::crc8::crc8_of;
use crate::error::Ds18b20Error;

verus! {

/// Lasered ROM
#[derive(Clone, Copy, Debug, Default, Eq, PartialEq)]
pub struct Rom {
    pub family_code: u8,
    pub serial_number: [u8; 6],
    pub crc: u8,
}

/// The 8-byte wire encoding of an address: family code, serial number, crc.
pub open spec fn rom_to_bytes(rom: Rom) -> Seq<u8> {
    seq![rom.family_code] + rom.serial_number@ + seq![rom.crc]
}

/// A well-formed address: the CRC8 remainder over all 8 bytes is zero.
pub open spec fn rom_wf(rom: Rom) -> bool {
    crc8_of(rom_to_bytes(rom)) == 0
}

/// Byte `i` of the little-endian encoding of a 64-bit value.
pub open spec fn u64_byte(v: u64, i: int) -> u8 {
    ((v >> ((8 * i) as u64)) & 0xFF) as u8
}

/// The 8-byte little-endian encoding of a 64-bit value.
pub open spec fn u64_le_bytes(v: u64) -> Seq<u8> {
    Seq::new(8, |i: int| u64_byte(v, i))
}

impl Rom {
    /// Builds an address from its 8 wire bytes; fails with a checksum
    /// mismatch exactly when the CRC8 remainder over the bytes is nonzero.
    pub fn try_from_bytes(value: [u8; 8]) -> (r: Result<Rom, Ds18b20Error>)
        ensures
            r is Ok <==> crc8_of(value@) == 0,
            r matches Ok(rom) ==> rom_to_bytes(rom) == value@ && rom_wf(rom),
            r matches Err(e) ==> e == (Ds18b20Error::UnexpectedCrc { crc8: crc8_of(value@) }),
    {
        match crc8::check(value.as_slice()) {
            Ok(()) => {
                let rom = Rom {
                    family_code: value[0],
                    serial_number: [value[1], value[2], value[3], value[4], value[5], value[6]],
                    crc: value[7],
                };
                proof {
                    assert(rom_to_bytes(rom) =~= value@);
                }
                Ok(rom)
            },
            Err(e) => Err(e),
        }
    }

    /// Builds an address from a 64-bit value, read as 8 little-endian bytes.
    pub fn try_from(value: u64) -> (r: Result<Rom, Ds18b20Error>)
        ensures
            r is Ok <==> crc8_of(u64_le_bytes(value)) == 0,
            r matches Ok(rom) ==> rom_to_bytes(rom) == u64_le_bytes(value) && rom_wf(rom),
            r matches Err(e) ==> e == (Ds18b20Error::UnexpectedCrc {
                crc8: crc8_of(u64_le_bytes(value)),
            }),
    {
        Self::try_from_bytes(le_bytes_of_u64(value))
    }

    /// The 8 wire bytes of this address.
    pub fn to_bytes(&self) -> (r: [u8; 8])
        ensures
            r@ == rom_to_bytes(*self),
    {
        let r = [
            self.family_code,
            self.serial_number[0],
            self.serial_number[1],
            self.serial_number[2],
            self.serial_number[3],
            self.serial_number[4],
            self.serial_number[5],
            self.crc,
        ];
        proof {
            assert(r@ =~= rom_to_bytes(*self));
        }
        r
    }

    /// The address as a 64-bit value, its 8 wire bytes read little-endian.
    pub fn to_u64(&self) -> (r: u64)
        ensures
            u64_le_bytes(r) == rom_to_bytes(*self),
    {
        let b = self.to_bytes();
        u64_of_le_bytes(b)
    }
}

/// The 8 little-endian bytes of a 64-bit value.
fn le_bytes_of_u64(v: u64) -> (r: [u8; 8])
    ensures
        r@ == u64_le_bytes(v),
{
    let r = [
        v as u8,
        (v >> 8) as u8,
        (v >> 16) as u8,
        (v >> 24) as u8,
        (v >> 32) as u8,
        (v >> 40) as u8,
        (v >> 48) as u8,
        (v >> 56) as u8,
    ];
    proof {
        assert(v as u8 == ((v >> 0) & 0xFF) as u8 && (v >> 8) as u8 == ((v >> 8) & 0xFF) as u8
            && (v >> 16) as u8 == ((v >> 16) & 0xFF) as u8 && (v >> 24) as u8 == ((v >> 24)
            & 0xFF) as u8 && (v >> 32) as u8 == ((v >> 32) & 0xFF) as u8 && (v >> 40) as u8 == ((v
            >> 40) & 0xFF) as u8 && (v >> 48) as u8 == ((v >> 48) & 0xFF) as u8 && (v
            >> 56) as u8 == ((v >> 56) & 0xFF) as u8) by (bit_vector);
        assert(r@ =~= u64_le_bytes(v));
    }
    r
}

/// A 64-bit value assembled from 8 little-endian bytes.
fn u64_of_le_bytes(b: [u8; 8]) -> (r: u64)
    ensures
        u64_le_bytes(r) == b@,
{
    let r = (b[0] as u64) | ((b[1] as u64) << 8) | ((b[2] as u64) << 16) | ((b[3] as u64) << 24) | (
    (b[4] as u64) << 32) | ((b[5] as u64) << 40) | ((b[6] as u64) << 48) | ((b[7] as u64) << 56);
    proof {
        let b0 = b@[0];
        let b1 = b@[1];
        let b2 = b@[2];
        let b3 = b@[3];
        let b4 = b@[4];
        let b5 = b@[5];
        let b6 = b@[6];
        let b7 = b@[7];
        assert(((r >> 0) & 0xFF) as u8 == b0 && ((r >> 8) & 0xFF) as u8 == b1 && ((r >> 16)
            & 0xFF) as u8 == b2 && ((r >> 24) & 0xFF) as u8 == b3 && ((r >> 32) & 0xFF) as u8 == b4
            && ((r >> 40) & 0xFF) as u8 == b5 && ((r >> 48) & 0xFF) as u8 == b6 && ((r >> 56)
            & 0xFF) as u8 == b7) by (bit_vector)
            requires
                r == (b0 as u64) | ((b1 as u64) << 8) | ((b2 as u64) << 16) | ((b3 as u64) << 24)
                    | ((b4 as u64) << 32) | ((b5 as u64) << 40) | ((b6 as u64) << 48) | ((
                b7 as u64) << 56),
        ;
        assert(u64_le_bytes(r) =~= b@);
    }
    r
}

/// Law: an address is pinned down by its byte encoding. Together with the
/// postcondition of `try_from_bytes` (a decoded address re-encodes to the
/// very bytes it was built from) this gives the round trip: decoding the
/// encoding of any valid address yields that address again.
pub proof fn lemma_rom_round_trip(rom: Rom, decoded: Rom)
    requires
        rom_to_bytes(decoded) == rom_to_bytes(rom),
    ensures
        decoded == rom,
{
    assert(decoded.family_code == rom_to_bytes(decoded)[0]);
    assert(rom.family_code == rom_to_bytes(rom)[0]);
    assert forall|i: int| 0 <= i < 6 implies decoded.serial_number[i] == rom.serial_number[i] by {
        assert(rom_to_bytes(decoded)[i + 1] == decoded.serial_number@[i]);
        assert(rom_to_bytes(rom)[i + 1] == rom.serial_number@[i]);
    }
    assert(decoded.serial_number =~= rom.serial_number);
    assert(decoded.crc == rom_to_bytes(decoded)[7]);
    assert(rom.crc == rom_to_bytes(rom)[7]);
}

} // verus!
