use spacerust::util::crc::calculate16;

#[test]
fn crc16_check_value() {
    assert_eq!(calculate16(b"123456789", 9), 0x29B1);
}

#[test]
fn crc16_of_nothing_is_seed() {
    assert_eq!(calculate16(b"abc", 0), 0xFFFF);
    assert_eq!(calculate16(&[], 0), 0xFFFF);
}

#[test]
fn crc16_reads_prefix_only() {
    assert_eq!(calculate16(b"123456789XY", 9), 0x29B1);
    assert_eq!(calculate16(&[0x00], 1), 0xE1F0);
}
