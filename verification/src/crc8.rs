//! Dallas/Maxim CRC8 checksum: polynomial `X^8 + X^5 + X^4 + X^0`, reflected,
//! with mask `0x8C` applied per output bit when the shifted-out bit is 1.

use vstd::prelude::*;

use crate::error::Ds18b20Error;

verus! {

/// One shift step of the reflected CRC8: shift right, xor with `0x8C` when
/// the shifted-out bit is 1.
pub open spec fn crc8_shift(crc: u8) -> u8 {
    if crc & 0x01 == 0x01 {
        (crc >> 1) ^ 0x8C
    } else {
        crc >> 1
    }
}

/// `n` shift steps applied to `x`.
pub open spec fn crc8_rounds(x: u8, n: nat) -> u8
    decreases n,
{
    if n == 0 {
        x
    } else {
        crc8_shift(crc8_rounds(x, (n - 1) as nat))
    }
}

/// Folding one byte into the running remainder: xor it in, then eight shift
/// steps.
pub open spec fn crc8_byte(crc: u8, byte: u8) -> u8 {
    crc8_rounds(crc ^ byte, 8)
}

/// The CRC8 remainder of a byte sequence, processed in order, starting from 0.
pub open spec fn crc8_of(data: Seq<u8>) -> u8
    decreases data.len(),
{
    if data.len() == 0 {
        0
    } else {
        crc8_byte(crc8_of(data.drop_last()), data.last())
    }
}

/// Calculates the crc8 of the input data.
pub fn calculate(data: &[u8]) -> (crc: u8)
    ensures
        crc == crc8_of(data@),
{
    let mut crc: u8 = 0;
    let mut i: usize = 0;
    while i < data.len()
        invariant
            i <= data@.len(),
            crc == crc8_of(data@.take(i as int)),
        decreases data@.len() - i,
    {
        crc = crc ^ data[i];
        let ghost start = crc;
        let mut j: usize = 0;
        while j < 8
            invariant
                j <= 8,
                crc == crc8_rounds(start, j as nat),
            decreases 8 - j,
        {
            let bit = crc & 0x01;
            proof {
                let prev = crc;
                assert(prev & 0x01 == 0 || prev & 0x01 == 0x01) by (bit_vector);
            }
            crc = crc >> 1;
            if bit != 0 {
                crc = crc ^ 0x8C;
            }
            j = j + 1;
        }
        proof {
            assert(data@.take(i + 1).drop_last() =~= data@.take(i as int));
            assert(data@.take(i + 1).last() == data@[i as int]);
        }
        i = i + 1;
    }
    proof {
        assert(data@.take(data@.len() as int) =~= data@);
    }
    crc
}

/// Checks that data (including its trailing crc byte) passes the crc check.
///
/// If the data includes its own trailing CRC byte the remainder is zero, so
/// the data need not be separated from its checksum before checking.
pub fn check(data: &[u8]) -> (r: Result<(), Ds18b20Error>)
    ensures
        r is Ok <==> crc8_of(data@) == 0,
        r matches Err(e) ==> e == (Ds18b20Error::UnexpectedCrc { crc8: crc8_of(data@) }),
{
    let crc8 = calculate(data);
    if crc8 == 0 {
        Ok(())
    } else {
        Err(Ds18b20Error::UnexpectedCrc { crc8 })
    }
}

/// Law: appending the remainder of a sequence to the sequence itself yields
/// remainder zero, for every byte sequence.
pub proof fn lemma_crc8_self_check(data: Seq<u8>)
    ensures
        crc8_of(data.push(crc8_of(data))) == 0,
{
    let c = crc8_of(data);
    assert(data.push(c).drop_last() =~= data);
    assert(data.push(c).last() == c);
    assert(crc8_of(data.push(c)) == crc8_byte(c, c));
    assert(c ^ c == 0) by (bit_vector);
    lemma_crc8_rounds_zero(8);
}

proof fn lemma_crc8_rounds_zero(n: nat)
    ensures
        crc8_rounds(0, n) == 0,
    decreases n,
{
    if n > 0 {
        lemma_crc8_rounds_zero((n - 1) as nat);
        assert(0u8 & 0x01 == 0) by (bit_vector);
        assert(0u8 >> 1 == 0) by (bit_vector);
    }
}

} // verus!
