use spacerust::ccsds::c_packet::Packet;
use spacerust::util::du::{two_pow_u64, BitAccessor, DUbuffer, DUintf, UnsignedAccessor};
use spacerust::util::exception::Exception;

#[test]
fn get_bits_reads_msb_first() {
    let p = Packet::new_owner(vec![0b1010_0000, 0xFF]);
    assert_eq!(p.get_bits(0, 3), Ok(5));
    assert_eq!(p.get_bits(4, 8), Ok(0x0F));
    assert_eq!(p.get_bits(0, 16), Ok(0xA0FF));
    assert_eq!(p.get_bits(16, 0), Ok(0));
}

#[test]
fn get_bits_errors() {
    let p = Packet::new_owner(vec![0u8; 8]);
    assert_eq!(p.get_bits(0, 33), Err(Exception::FieldTooWide));
    assert_eq!(p.get_bits(60, 5), Err(Exception::FieldOutOfBuffer));
    assert_eq!(p.get_bits(usize::MAX, 1), Err(Exception::FieldOutOfBuffer));
    assert_eq!(p.get_bits(0, 32), Ok(0));
}

#[test]
fn set_bits_writes_field_only() {
    let mut p = Packet::new_owner(vec![0xFF, 0x00, 0xFF]);
    assert_eq!(p.set_bits(6, 4, 0b1001), Ok(()));
    assert_eq!(p.buffer_read_only(), &[0b1111_1110, 0b0100_0000, 0xFF][..]);
    assert_eq!(p.get_bits(6, 4), Ok(0b1001));
}

#[test]
fn set_bits_then_get_bits_roundtrip() {
    let mut p = Packet::new_owner(vec![0x5A; 6]);
    assert_eq!(p.set_bits(3, 32, 0xDEADBEEF), Ok(()));
    assert_eq!(p.get_bits(3, 32), Ok(0xDEADBEEF));
    assert_eq!(p.size(), 6);
}

#[test]
fn set_bits_keeps_disjoint_fields() {
    let mut p = Packet::new_owner(vec![0x12, 0x34, 0x56]);
    let before = p.get_bits(11, 13).unwrap();
    assert_eq!(p.set_bits(0, 11, 0x7FF), Ok(()));
    assert_eq!(p.get_bits(11, 13), Ok(before));
    assert_eq!(p.get_bits(0, 11), Ok(0x7FF));
}

#[test]
fn set_bits_errors_leave_buffer() {
    let mut p = Packet::new_owner(vec![1, 2, 3]);
    assert_eq!(p.set_bits(0, 33, 0), Err(Exception::FieldTooWide));
    assert_eq!(p.set_bits(20, 5, 0), Err(Exception::FieldOutOfBuffer));
    assert_eq!(p.set_bits(0, 3, 8), Err(Exception::ValueOutOfRange));
    assert_eq!(p.buffer_read_only(), &[1, 2, 3][..]);
}

#[test]
fn accessors_match_positions() {
    let mut p = Packet::new_owner(vec![0u8; 4]);
    let acc = BitAccessor { bit_pos: 8, bit_length: 4 };
    assert_eq!(p.set_bits_acc(acc, 0xC), Ok(()));
    assert_eq!(p.get_bits_acc(acc), Ok(0xC));
    assert_eq!(p.at(1), 0xC0);
    let uacc = UnsignedAccessor { byte_pos: 2, byte_length: 2 };
    assert_eq!(p.set_unsigned_acc(uacc, 0xBEEF), Ok(()));
    assert_eq!(p.get_unsigned_acc(uacc), Ok(0xBEEF));
    assert_eq!(p.buffer_read_only(), &[0, 0xC0, 0xBE, 0xEF][..]);
}

#[test]
fn unsigned_is_big_endian() {
    let mut p = Packet::new_owner(vec![0u8; 5]);
    assert_eq!(p.set_unsigned(1, 2, 0x1234), Ok(()));
    assert_eq!(p.buffer_read_only(), &[0, 0x12, 0x34, 0, 0][..]);
    assert_eq!(p.get_unsigned(1, 2), Ok(0x1234));
    assert_eq!(p.set_unsigned(1, 4, 0x01020304), Ok(()));
    assert_eq!(p.get_unsigned(1, 4), Ok(0x01020304));
    assert_eq!(p.buffer_read_only(), &[0, 1, 2, 3, 4][..]);
    assert_eq!(p.get_unsigned(5, 0), Ok(0));
}

#[test]
fn unsigned_errors() {
    let mut p = Packet::new_owner(vec![0u8; 5]);
    assert_eq!(p.get_unsigned(0, 5), Err(Exception::FieldTooWide));
    assert_eq!(p.get_unsigned(4, 2), Err(Exception::FieldOutOfBuffer));
    assert_eq!(p.get_unsigned(6, 0), Err(Exception::FieldOutOfBuffer));
    assert_eq!(p.set_unsigned(0, 5, 0), Err(Exception::FieldTooWide));
    assert_eq!(p.set_unsigned(4, 2, 0), Err(Exception::FieldOutOfBuffer));
    assert_eq!(p.set_unsigned(0, 1, 256), Err(Exception::ValueOutOfRange));
    assert_eq!(p.buffer_read_only(), &[0u8; 5][..]);
}

#[test]
fn read_only_packet_reads() {
    let data = [0x18u8, 0x01, 0xC0, 0x00, 0x00, 0x00, 0xAA];
    let p = Packet::new_read_only(&data);
    assert_eq!(p.size(), 7);
    assert_eq!(p.get_bits(3, 1), Ok(1));
    assert_eq!(p.at(6), 0xAA);
}

#[test]
fn read_write_packet_writes_through() {
    let mut data = [0u8; 4];
    {
        let mut p = Packet::new_read_write(&mut data);
        assert_eq!(p.set_unsigned(0, 2, 0xCAFE), Ok(()));
        p.set_at(3, 7);
    }
    assert_eq!(data, [0xCA, 0xFE, 0, 7]);
}

#[test]
fn powers_of_two() {
    assert_eq!(two_pow_u64(0), 1);
    assert_eq!(two_pow_u64(11), 2048);
    assert_eq!(two_pow_u64(32), 0x1_0000_0000);
}

#[test]
fn resize_cuts_and_extends() {
    let mut p = Packet::new_owner(vec![1, 2, 3]);
    p.resize(5);
    assert_eq!(p.buffer_read_only(), &[1, 2, 3, 0, 0][..]);
    p.resize(2);
    assert_eq!(p.buffer_read_only(), &[1, 2][..]);
    let data = [9u8, 8, 7];
    let mut ro = Packet::new_read_only(&data);
    ro.resize(4);
    assert_eq!(ro.buffer_read_only(), &[9, 8, 7, 0][..]);
    assert_eq!(ro.set_unsigned(3, 1, 6), Ok(()));
    assert_eq!(ro.at(3), 6);
    assert_eq!(data, [9, 8, 7]);
}
