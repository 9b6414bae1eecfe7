use spacerust::ccsds::c_packet::primary_header;
use spacerust::ccsds::c_packet::{
    CANpacket, CucTimeAccessor, Packet, PacketIntf, TCpacket, TMpacket, PRIMARY_HEADER_BYTE_SIZE,
    SEGMENTATION_NONE, TC_PACKET_TYPE,
};
use spacerust::util::du::{DUbuffer, DUintf};
use spacerust::util::exception::Exception;

#[test]
fn new_packet_is_minimal_and_consistent() {
    let p = Packet::new();
    assert_eq!(p.buffer_read_only(), &[0u8; 7][..]);
    assert_eq!(p.get_packet_length_field(), Ok(0));
    assert_eq!(p.check_packet_length(), Ok(true));
    let tm = TMpacket::new();
    assert_eq!(tm.buffer_read_only(), &[0u8; 7][..]);
    let tc = TCpacket::new();
    assert_eq!(tc.check_packet_length(), Ok(true));
    let can = CANpacket::new();
    assert_eq!(can.size(), PRIMARY_HEADER_BYTE_SIZE + 1);
}

#[test]
fn new_alloc_sets_packet_length() {
    let p = Packet::new_alloc(20);
    assert_eq!(p.size(), 20);
    assert_eq!(p.get_packet_length_field(), Ok(13));
    assert_eq!(&p.buffer_read_only()[0..8], &[0, 0, 0, 0, 0, 13, 0, 0][..]);
    assert_eq!(p.check_packet_length(), Ok(true));
    let big = TMpacket::new_alloc(7 + 0xFFFF);
    assert_eq!(big.get_packet_length_field(), Ok(0xFFFF));
    assert_eq!(big.check_packet_length(), Ok(true));
}

#[test]
fn constructors_keep_bytes() {
    let v = vec![1u8, 2, 3];
    let p = Packet::new_clone(&v);
    assert_eq!(p.buffer_read_only(), &v[..]);
    let q = TCpacket::new_owner(v.clone());
    assert_eq!(q.buffer_read_only(), &[1, 2, 3][..]);
    let r = CANpacket::new_read_only(&v);
    assert_eq!(r.size(), 3);
}

#[test]
fn header_fields_roundtrip_and_layout() {
    let mut p = TCpacket::new_alloc(10);
    assert_eq!(p.set_version_number_field(0), Ok(()));
    assert_eq!(p.set_packet_type_field(TC_PACKET_TYPE), Ok(()));
    assert_eq!(p.set_data_field_header_flag_field(1), Ok(()));
    assert_eq!(p.set_application_process_id_field(0x123), Ok(()));
    assert_eq!(p.set_segmentation_flags_field(SEGMENTATION_NONE), Ok(()));
    assert_eq!(p.set_sequence_control_count_field(0x3FFF), Ok(()));
    assert_eq!(&p.buffer_read_only()[0..6], &[0x19, 0x23, 0xFF, 0xFF, 0x00, 0x03][..]);
    assert_eq!(p.get_version_number_field(), Ok(0));
    assert_eq!(p.get_packet_type_field(), Ok(1));
    assert_eq!(p.get_data_field_header_flag_field(), Ok(1));
    assert_eq!(p.get_application_process_id_field(), Ok(0x123));
    assert_eq!(p.get_segmentation_flags_field(), Ok(3));
    assert_eq!(p.get_sequence_control_count_field(), Ok(0x3FFF));
    assert_eq!(p.get_packet_length_field(), Ok(3));
    assert_eq!(p.check_packet_length(), Ok(true));
}

#[test]
fn header_field_keeps_other_fields() {
    let mut p = Packet::new_owner(vec![0xFF; 8]);
    assert_eq!(p.set_application_process_id_field(0), Ok(()));
    assert_eq!(p.get_version_number_field(), Ok(7));
    assert_eq!(p.get_packet_type_field(), Ok(1));
    assert_eq!(p.get_data_field_header_flag_field(), Ok(1));
    assert_eq!(p.get_segmentation_flags_field(), Ok(3));
    assert_eq!(p.buffer_read_only(), &[0xF8, 0x00, 0xFF, 0xFF, 0xFF, 0xFF, 0xFF, 0xFF][..]);
}

#[test]
fn header_field_errors() {
    let mut p = Packet::new();
    assert_eq!(p.set_version_number_field(8), Err(Exception::ValueOutOfRange));
    assert_eq!(p.set_application_process_id_field(0x800), Err(Exception::ValueOutOfRange));
    assert_eq!(p.set_sequence_control_count_field(0x4000), Err(Exception::ValueOutOfRange));
    assert_eq!(p.set_packet_length_field(0x10000), Err(Exception::ValueOutOfRange));
    assert_eq!(p.buffer_read_only(), &[0u8; 7][..]);
    let short = Packet::new_owner(vec![0u8; 2]);
    assert_eq!(short.get_segmentation_flags_field(), Err(Exception::FieldOutOfBuffer));
    assert_eq!(short.get_packet_length_field(), Err(Exception::FieldOutOfBuffer));
}

#[test]
fn header_accessors() {
    let mut p = Packet::new();
    assert_eq!(p.set_bits_acc(primary_header::application_process_id(), 0x7FF), Ok(()));
    assert_eq!(p.get_application_process_id_field(), Ok(0x7FF));
    assert_eq!(p.get_unsigned_acc(primary_header::packet_length()), Ok(0));
    assert_eq!(primary_header::sequence_control_count().bit_pos, 18);
    assert_eq!(primary_header::sequence_control_count().bit_length, 14);
    assert_eq!(primary_header::version_number().bit_length, 3);
    assert_eq!(primary_header::packet_type().bit_pos, 3);
    assert_eq!(primary_header::data_field_header_flag().bit_pos, 4);
    assert_eq!(primary_header::segmentation_flags().bit_pos, 16);
}

#[test]
fn set_packet_length_from_size() {
    let mut p = Packet::new_owner(vec![0u8; 12]);
    assert_eq!(p.check_packet_length(), Ok(false));
    assert_eq!(p.set_packet_length(), Ok(()));
    assert_eq!(p.get_packet_length_field(), Ok(5));
    assert_eq!(p.check_packet_length(), Ok(true));
}

#[test]
fn set_packet_length_errors() {
    let mut small = Packet::new_owner(vec![0u8; 6]);
    assert_eq!(small.set_packet_length(), Err(Exception::PacketTooSmall));
    let mut huge = Packet::new_owner(vec![0u8; 7 + 0x10000]);
    assert_eq!(huge.set_packet_length(), Err(Exception::ValueOutOfRange));
    assert_eq!(huge.get_packet_length_field(), Ok(0));
}

#[test]
fn check_packet_length_of_short_buffer_fails() {
    let p = Packet::new_owner(vec![0u8; 5]);
    assert_eq!(p.check_packet_length(), Err(Exception::FieldOutOfBuffer));
    assert_eq!(p.check_checksum(), Err(Exception::FieldOutOfBuffer));
}

#[test]
fn checksum_roundtrip() {
    let mut p = Packet::new_owner(vec![0x08, 0x01, 0xC0, 0x00, 0x00, 0x03, 0x11, 0x22, 0, 0]);
    assert_eq!(p.check_checksum(), Ok(false));
    assert_eq!(p.set_checksum(), Ok(()));
    assert_eq!(&p.buffer_read_only()[8..10], &[0x44, 0x87][..]);
    assert_eq!(p.check_checksum(), Ok(true));
    assert_eq!(p.check_packet_length(), Ok(true));
    p.set_at(6, 0x12);
    assert_eq!(p.check_checksum(), Ok(false));
}

#[test]
fn checksum_needs_consistent_length() {
    let mut p = Packet::new_owner(vec![0u8; 10]);
    assert_eq!(p.set_checksum(), Err(Exception::InconsistentPacketLength));
    assert_eq!(p.buffer_read_only(), &[0u8; 10][..]);
    assert_eq!(p.check_checksum(), Ok(false));
    let mut short = Packet::new_owner(vec![0u8; 4]);
    assert_eq!(short.set_checksum(), Err(Exception::FieldOutOfBuffer));
}

#[test]
fn checksum_of_smallest_packet_overwrites_length() {
    let mut p = Packet::new();
    assert_eq!(p.set_checksum(), Ok(()));
    assert_eq!(p.check_checksum(), Ok(false));
}

#[test]
fn cuc_time_roundtrip() {
    let mut p = TMpacket::new_alloc(16);
    let acc = CucTimeAccessor { byte_pos: 10, p_field: 0x2E };
    let time = [0x2E, 1, 2, 3, 4, 5];
    assert_eq!(p.set_cuc_time_acc(acc, &time), Ok(()));
    assert_eq!(&p.buffer_read_only()[10..16], &time[..]);
    assert_eq!(p.get_cuc_time_acc(acc, 6, true), Ok(time.to_vec()));
    assert_eq!(p.get_cuc_time(11, 0x2E, 5, false), Ok(vec![1, 2, 3, 4, 5]));
}

#[test]
fn cuc_time_errors() {
    let mut p = TMpacket::new_alloc(16);
    assert_eq!(p.set_cuc_time(12, &[1, 2, 3, 4, 5]), Err(Exception::CucTimeOutOfBuffer));
    assert_eq!(p.get_cuc_time(12, 0x2E, 5, false), Err(Exception::CucTimeOutOfBuffer));
    assert_eq!(p.get_cuc_time(10, 0x2E, 6, true), Err(Exception::UnexpectedPField));
    assert_eq!(p.get_cuc_time(10, 0x00, 6, true), Ok(vec![0u8; 6]));
}

#[test]
fn any_bit_flip_breaks_checksum() {
    let mut p = Packet::new_owner(vec![0x08, 0x01, 0xC0, 0x00, 0x00, 0x03, 0x11, 0x22, 0, 0]);
    assert_eq!(p.set_checksum(), Ok(()));
    let good = p.buffer_read_only().to_vec();
    for k in 0..good.len() {
        for j in 0..8 {
            let mut q = Packet::new_clone(&good);
            q.buffer_read_write()[k] ^= 1u8 << j;
            assert_eq!(q.check_checksum(), Ok(false));
        }
    }
}

#[test]
fn read_only_packet_reports_errors_without_writing() {
    let small = [0u8; 5];
    let mut p = Packet::new_read_only(&small);
    assert_eq!(p.set_packet_length(), Err(Exception::PacketTooSmall));
    assert_eq!(p.set_version_number_field(9), Err(Exception::ValueOutOfRange));
    assert_eq!(p.set_cuc_time(4, &[1, 2]), Err(Exception::CucTimeOutOfBuffer));
    let data = [0u8; 10];
    let mut q = Packet::new_read_only(&data);
    assert_eq!(q.set_checksum(), Err(Exception::InconsistentPacketLength));
    assert_eq!(q.buffer_read_only(), &[0u8; 10][..]);
}

#[test]
fn buffer_read_write_writes_through_to_caller() {
    let mut data = [0u8; 8];
    {
        let mut p = TMpacket::new_read_write(&mut data);
        p.buffer_read_write()[7] = 0x55;
        assert_eq!(p.set_packet_length(), Ok(()));
    }
    assert_eq!(data, [0, 0, 0, 0, 0, 1, 0, 0x55]);
}

#[test]
fn read_write_packet_field_setters_write_through() {
    let mut data = [0u8; 10];
    {
        let mut p = Packet::new_read_write(&mut data);
        assert_eq!(p.set_application_process_id_field(0x42), Ok(()));
        assert_eq!(p.set_packet_length(), Ok(()));
        assert_eq!(p.set_checksum(), Ok(()));
    }
    let check = Packet::new_read_only(&data);
    assert_eq!(check.get_application_process_id_field(), Ok(0x42));
    assert_eq!(check.check_checksum(), Ok(true));
    assert_eq!(&data[0..6], &[0x00, 0x42, 0, 0, 0, 3][..]);
}
