use ds18b20::crc8::{calculate, check};
use ds18b20::error::Ds18b20Error;

#[test]
fn crc8_test() {
    assert_eq!(calculate(&[99, 1, 75, 70, 127, 255, 13, 16]), 21);
    assert_eq!(calculate(&[99, 1, 75, 70, 127, 255, 13, 16, 21]), 0);

    assert_eq!(calculate(&[97, 1, 75, 70, 127, 255, 15, 16]), 2);
    assert_eq!(calculate(&[97, 1, 75, 70, 127, 255, 15, 16, 2]), 0);

    assert_eq!(calculate(&[95, 1, 75, 70, 127, 255, 1, 16]), 155);
    assert_eq!(calculate(&[95, 1, 75, 70, 127, 255, 1, 16, 155]), 0);
}

#[test]
fn crc8_self_check_examples() {
    // appending the remainder of any sequence yields remainder zero
    for data in [
        vec![],
        vec![0x00u8],
        vec![0x28, 0x01, 0x02, 0x03, 0x04, 0x05, 0x06],
        vec![0xFF; 16],
    ] {
        let crc = calculate(&data);
        let mut with_crc = data.clone();
        with_crc.push(crc);
        assert_eq!(calculate(&with_crc), 0);
    }
}

#[test]
fn check_reports_remainder() {
    assert_eq!(check(&[99, 1, 75, 70, 127, 255, 13, 16, 21]), Ok(()));
    assert_eq!(
        check(&[99, 1, 75, 70, 127, 255, 13, 16]),
        Err(Ds18b20Error::UnexpectedCrc { crc8: 21 })
    );
}
