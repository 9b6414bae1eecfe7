use spacerust::ccsds::c_packet::{CANpacket, PacketIntf};
use spacerust::rx_tx::can_rx_tx::{packet_from_frames, packet_size, CanFrame, CAN_RX_TX};
use spacerust::util::du::DUbuffer;

#[test]
fn chop_cuts_into_runs_of_eight() {
    let bytes: Vec<u8> = (0u8..20).collect();
    let packet = CANpacket::new_owner(bytes.clone());
    let frames = CANpacket::chop(&packet);
    assert_eq!(frames.len(), 3);
    assert_eq!(frames[0].data(), &bytes[0..8]);
    assert_eq!(frames[1].data(), &bytes[8..16]);
    assert_eq!(frames[2].data(), &bytes[16..20]);
}

#[test]
fn unchop_after_chop_gives_packet_back() {
    let mut packet = CANpacket::new_alloc(23);
    packet.set_application_process_id_field(0x42).unwrap();
    packet.set_at(22, 0x99);
    let frames = CANpacket::chop(&packet);
    let back = CANpacket::unchop(&frames);
    assert_eq!(back.buffer_read_only(), packet.buffer_read_only());
    assert_eq!(back.get_application_process_id_field(), Ok(0x42));
}

#[test]
fn chop_of_exact_multiple_and_empty() {
    let packet = CANpacket::new_owner(vec![7u8; 16]);
    let frames = CANpacket::chop(&packet);
    assert_eq!(frames.len(), 2);
    assert_eq!(frames[1].data(), &[7u8; 8][..]);
    let empty = CANpacket::new_owner(Vec::new());
    assert_eq!(CANpacket::chop(&empty).len(), 0);
    let back = CANpacket::unchop(&Vec::new());
    assert_eq!(back.size(), 0);
}

#[test]
fn frame_holds_at_most_eight_bytes() {
    assert!(CanFrame::new(&[0u8; 9]).is_none());
    let f = CanFrame::new(&[1, 2, 3]).unwrap();
    assert_eq!(f.data(), &[1, 2, 3][..]);
    let frames = vec![f, CanFrame::new(&[4, 5]).unwrap()];
    let p = CANpacket::unchop(&frames);
    assert_eq!(p.buffer_read_only(), &[1, 2, 3, 4, 5][..]);
}

#[test]
fn packet_size_from_header() {
    assert_eq!(packet_size(&[0, 0, 0, 0, 0]), None);
    assert_eq!(packet_size(&[0x08, 0x01, 0xC0, 0x00, 0x00, 0x0D]), Some(20));
    assert_eq!(packet_size(&[0, 0, 0, 0, 0x01, 0x00, 9, 9]), Some(263));
}

#[test]
fn packet_from_frames_waits_for_whole_packet() {
    let mut packet = CANpacket::new_alloc(12);
    packet.set_sequence_control_count_field(5).unwrap();
    let frames = CANpacket::chop(&packet);
    assert_eq!(frames.len(), 2);
    assert!(packet_from_frames(&Vec::new()).is_none());
    let first: Vec<CanFrame> = vec![CanFrame::new(frames[0].data()).unwrap()];
    assert!(packet_from_frames(&first).is_none());
    let whole = packet_from_frames(&frames).unwrap();
    assert_eq!(whole.buffer_read_only(), packet.buffer_read_only());
    let mut more: Vec<CanFrame> = frames;
    more.push(CanFrame::new(&[1, 2, 3]).unwrap());
    let trimmed = packet_from_frames(&more).unwrap();
    assert_eq!(trimmed.buffer_read_only(), packet.buffer_read_only());
}
