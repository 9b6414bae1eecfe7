use vstd::prelude::*;
use vstd::slice::{slice_subrange, slice_to_vec};

use crate::ccsds::c_packet::{
    lemma_two_pow_16, packet_length_result, primary_header_fields_from_bytes, CANpacket, PacketIntf, PRIMARY_HEADER_BYTE_SIZE,
};
use crate::util::du::{lemma_bits_value_bound, resized, DUbuffer};

verus! {

/// The most data bytes that one CAN frame carries.
pub const CAN_FRAME_DATA_SIZE: usize = 8;

/// The data of one CAN frame: at most 8 bytes.
pub struct CanFrame {
    data: Vec<u8>,
}

impl View for CanFrame {
    type V = Seq<u8>;

    closed spec fn view(&self) -> Seq<u8> {
        self.data@
    }
}

impl CanFrame {
    #[verifier::type_invariant]
    spec fn fits(&self) -> bool {
        self.data@.len() <= CAN_FRAME_DATA_SIZE
    }

    /// A frame that carries `data`, or none if `data` has more than 8 bytes.
    pub fn new(data: &[u8]) -> (frame: Option<CanFrame>)
        ensures
            data@.len() <= CAN_FRAME_DATA_SIZE <==> frame is Some,
            frame matches Some(f) ==> f@ == data@,
    {
        if data.len() <= CAN_FRAME_DATA_SIZE {
            Some(CanFrame { data: slice_to_vec(data) })
        } else {
            None
        }
    }

    /// The data bytes of the frame.
    pub fn data(&self) -> (r: &[u8])
        ensures
            r@ == self@,
            r@.len() <= CAN_FRAME_DATA_SIZE,
    {
        proof {
            use_type_invariant(self);
        }
        self.data.as_slice()
    }
}

/// The data of the frames that a packet of the bytes `s` is cut into: the
/// successive runs of 8 bytes, the last one shorter if the size is not a
/// multiple of 8.
pub open spec fn chopped(s: Seq<u8>) -> Seq<Seq<u8>> {
    Seq::new(
        ((s.len() + 7) / 8) as nat,
        |i: int|
            s.subrange(
                8 * i,
                if 8 * i + 8 <= s.len() {
                    8 * i + 8
                } else {
                    s.len() as int
                },
            ),
    )
}

/// The bytes of a sequence of frames, one after the other.
pub open spec fn concat(frames: Seq<Seq<u8>>) -> Seq<u8>
    decreases frames.len(),
{
    if frames.len() == 0 {
        Seq::empty()
    } else {
        concat(frames.drop_last()) + frames.last()
    }
}

/// The data of each frame.
pub open spec fn frames_data(frames: Seq<CanFrame>) -> Seq<Seq<u8>> {
    frames.map_values(|f: CanFrame| f@)
}

/// Cutting the bytes of a packet into frames and putting the frames together
/// again gives back the bytes: `unchop` after `chop` gives a packet of the
/// same bytes.
pub proof fn unchop_after_chop(s: Seq<u8>)
    ensures
        concat(chopped(s)) == s,
    decreases s.len(),
{
    if s.len() > 0 {
        let k = (s.len() + 7) / 8;
        let m = 8 * (k - 1);
        let c = chopped(s);
        let prefix = s.take(m);
        assert(c.drop_last() =~= chopped(prefix)) by {
            assert forall|i: int| 0 <= i < k - 1 implies c.drop_last()[i] =~= chopped(prefix)[i] by {
            }
        }
        unchop_after_chop(prefix);
        assert(c.last() =~= s.subrange(m, s.len() as int));
        assert(prefix + s.subrange(m, s.len() as int) =~= s);
    }
}

/// A packet is cut into frames of exactly 8 bytes but for the last, which
/// holds the 1 to 8 bytes that are left; an empty packet gives no frame.
pub proof fn chopped_frames_are_full(s: Seq<u8>)
    ensures
        chopped(s).len() == (s.len() + 7) / 8,
        forall|i: int| 0 <= i < chopped(s).len() - 1 ==> #[trigger] chopped(s)[i].len() == 8,
        s.len() > 0 ==> 1 <= chopped(s).last().len() <= 8,
        forall|i: int|
            0 <= i < chopped(s).len() ==> forall|j: int|
                0 <= j < #[trigger] chopped(s)[i].len() ==> chopped(s)[i][j] == s[8 * i + j],
{
}

/// A CAN interface for CCSDS packets: packets travel as runs of CAN frames
/// of at most 8 data bytes each.
#[allow(non_camel_case_types)]
pub trait CAN_RX_TX: DUbuffer + Sized {
    /// Cuts a packet into the frames that carry it.
    fn chop(packet: &Self) -> (frames: Vec<CanFrame>)
        ensures
            frames_data(frames@) == chopped(packet.bytes()),
    ;

    /// Puts a packet together from the frames that carry it.
    fn unchop(frames: &Vec<CanFrame>) -> (packet: Self)
        ensures
            packet.writable(),
            packet.bytes() == concat(frames_data(frames@)),
    ;
}

impl<'a> CAN_RX_TX for CANpacket<'a> {
    fn chop(packet: &Self) -> (frames: Vec<CanFrame>) {
        let buffer = packet.buffer_read_only();
        let size = buffer.len();
        let ghost s = buffer@;
        let mut frames: Vec<CanFrame> = Vec::new();
        let mut pos: usize = 0;
        while pos < size
            invariant
                s == buffer@,
                s == packet.bytes(),
                size == s.len(),
                pos <= size,
                pos % 8 == 0 || pos == size,
                frames@.len() == (pos + 7) / 8,
                forall|i: int| 0 <= i < frames@.len() ==> #[trigger] frames@[i]@ == chopped(s)[i],
            decreases size - pos,
        {
            let end: usize = if size - pos >= CAN_FRAME_DATA_SIZE {
                pos + CAN_FRAME_DATA_SIZE
            } else {
                size
            };
            let frame = CanFrame { data: slice_to_vec(slice_subrange(buffer, pos, end)) };
            let ghost i = frames@.len() as int;
            frames.push(frame);
            assert(frames@[i]@ == chopped(s)[i]);
            pos = end;
        }
        assert(frames_data(frames@) =~= chopped(s));
        frames
    }

    fn unchop(frames: &Vec<CanFrame>) -> (packet: Self) {
        let mut bytes: Vec<u8> = Vec::new();
        let mut i: usize = 0;
        while i < frames.len()
            invariant
                i <= frames@.len(),
                bytes@ == concat(frames_data(frames@).take(i as int)),
            decreases frames@.len() - i,
        {
            let data = frames[i].data();
            let mut k: usize = 0;
            let ghost start = bytes@;
            while k < data.len()
                invariant
                    k <= data@.len(),
                    bytes@ == start + data@.take(k as int),
                decreases data@.len() - k,
            {
                bytes.push(data[k]);
                k = k + 1;
                assert(bytes@ =~= start + data@.take(k as int));
            }
            proof {
                let t = frames_data(frames@).take(i + 1);
                assert(t.drop_last() =~= frames_data(frames@).take(i as int));
                assert(data@.take(data@.len() as int) =~= data@);
            }
            i = i + 1;
        }
        assert(frames_data(frames@).take(frames@.len() as int) =~= frames_data(frames@));
        CANpacket::new_owner(bytes)
    }
}

/// The size in bytes of the packet whose first received bytes are
/// `received`: none while they do not yet hold the primary header, else the
/// packet length field plus the size of the primary header plus one.
pub fn packet_size(received: &[u8]) -> (r: Option<usize>)
    ensures
        match packet_length_result(received@) {
            Ok(length) => r == Some((length + PRIMARY_HEADER_BYTE_SIZE + 1) as usize),
            Err(_) => r is None,
        },
        received@.len() < PRIMARY_HEADER_BYTE_SIZE <==> r is None,
        received@.len() >= PRIMARY_HEADER_BYTE_SIZE ==> r == Some(
            (256 * received@[4] + received@[5] + 7) as usize,
        ),
{
    proof {
        if received@.len() >= PRIMARY_HEADER_BYTE_SIZE {
            primary_header_fields_from_bytes(received@);
        }
    }
    let packet = CANpacket::new_read_only(received);
    match packet.get_packet_length_field() {
        Ok(length) => {
            proof {
                lemma_bits_value_bound(received@, 32, 16);
                lemma_two_pow_16();
            }
            Some((length as usize) + PRIMARY_HEADER_BYTE_SIZE + 1)
        },
        Err(_) => None,
    }
}

/// The packet that the received frames carry, once they hold all of it:
/// the bytes of the frames cut to the size that the packet length field
/// calls for; none while they hold less.
pub fn packet_from_frames(frames: &Vec<CanFrame>) -> (r: Option<CANpacket<'static>>)
    ensures
        match packet_length_result(concat(frames_data(frames@))) {
            Ok(length) => if concat(frames_data(frames@)).len() >= length
                + PRIMARY_HEADER_BYTE_SIZE + 1 {
                r matches Some(p) && p.writable() && p.bytes() == concat(
                    frames_data(frames@),
                ).take(length + PRIMARY_HEADER_BYTE_SIZE + 1)
            } else {
                r is None
            },
            Err(_) => r is None,
        },
{
    let mut packet = CANpacket::unchop(frames);
    let ghost received = packet.bytes();
    proof {
        lemma_bits_value_bound(received, 32, 16);
        lemma_two_pow_16();
    }
    match packet_size(packet.buffer_read_only()) {
        Some(size) => {
            if packet.size() >= size {
                packet.resize(size);
                assert(resized(received, size as nat) =~= received.take(size as int));
                Some(packet)
            } else {
                None
            }
        },
        None => None,
    }
}

} // verus!
