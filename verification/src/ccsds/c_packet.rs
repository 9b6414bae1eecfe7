pub mod primary_header;

use vstd::prelude::*;
use vstd::slice::{slice_subrange, slice_to_vec};

use crate::ccsds::c_packet::primary_header::{
    APPLICATION_PROCESS_ID_BIT_LENGTH, APPLICATION_PROCESS_ID_BIT_POS,
    DATA_FIELD_HEADER_FLAG_BIT_LENGTH, DATA_FIELD_HEADER_FLAG_BIT_POS, PACKET_LENGTH_BYTE_LENGTH,
    PACKET_LENGTH_BYTE_POS, PACKET_TYPE_BIT_LENGTH, PACKET_TYPE_BIT_POS,
    SEGMENTATION_FLAGS_BIT_LENGTH, SEGMENTATION_FLAGS_BIT_POS, SEQUENCE_CONTROL_COUNT_BIT_LENGTH,
    SEQUENCE_CONTROL_COUNT_BIT_POS, VERSION_NUMBER_BIT_LENGTH, VERSION_NUMBER_BIT_POS,
};
use crate::util::crc::{calculate16, crc16, crc16_detects_one_byte_change};
use crate::util::du::{
    bit_at, bits_value, get_bits_result, get_unsigned_after_set_unsigned, get_unsigned_result,
    lemma_bits_value_bound, lemma_bits_value_byte, lemma_bits_value_split, lemma_bits_value_u16, lemma_get_with_bits, lemma_with_bits_bytes_frame, lemma_with_bits_len,
    lemma_with_bits_be_bytes, lemma_with_bits_other_field, set_bits_error,
    set_unsigned_error, two_pow, with_bits, with_bytes, be_bytes, DUbuffer, DUintf, HybridVector,
};
use crate::util::exception::Exception;

verus! {

// ---------------------------------------------------------------------------
// constants
// ---------------------------------------------------------------------------

pub const TM_PACKET_TYPE: u32 = 0;
pub const TC_PACKET_TYPE: u32 = 1;
pub const VERSION_NUMBER: u32 = 0;
pub const SEGMENTATION_CONTINUATION: u32 = 0;
pub const SEGMENTATION_FIRST: u32 = 1;
pub const SEGMENTATION_LAST: u32 = 2;
pub const SEGMENTATION_NONE: u32 = 3;
pub const CRC_BYTE_SIZE: usize = 2;
pub const PRIMARY_HEADER_BYTE_SIZE: usize = 6;
pub const N_BYTE_SIZE: usize = 4;
pub const TM_N_BYTE_SIZE: usize = 4;
pub const TC_N_BYTE_SIZE: usize = 0;

/// Where a CUC time field stands in a packet, and the p-field that
/// describes its format.
#[derive(Copy, Clone, Debug)]
pub struct CucTimeAccessor {
    pub byte_pos: usize,
    pub p_field: u8,
}

// ---------------------------------------------------------------------------
// the packet model
// ---------------------------------------------------------------------------

/// What reading the packet length field gives.
pub open spec fn packet_length_result(s: Seq<u8>) -> Result<u32, Exception> {
    get_unsigned_result(s, PACKET_LENGTH_BYTE_POS as int, PACKET_LENGTH_BYTE_LENGTH as nat)
}

/// `s` with `v` written into the packet length field, big-endian.
pub open spec fn with_packet_length(s: Seq<u8>, v: nat) -> Seq<u8> {
    with_bytes(s, PACKET_LENGTH_BYTE_POS as int, be_bytes(v, PACKET_LENGTH_BYTE_LENGTH as nat))
}

/// The packet length that a buffer of `n` bytes calls for: the number of
/// bytes after the primary header, minus one.
pub open spec fn expected_packet_length(n: nat) -> int {
    n - PRIMARY_HEADER_BYTE_SIZE - 1
}

/// The error that setting the packet length from the buffer size reports, if any.
pub open spec fn set_packet_length_error(s: Seq<u8>) -> Option<Exception> {
    if s.len() < PRIMARY_HEADER_BYTE_SIZE + 1 {
        Some(Exception::PacketTooSmall)
    } else if expected_packet_length(s.len()) > u32::MAX {
        Some(Exception::PacketTooLarge)
    } else {
        set_unsigned_error(
            s,
            PACKET_LENGTH_BYTE_POS as int,
            PACKET_LENGTH_BYTE_LENGTH as nat,
            expected_packet_length(s.len()) as nat,
        )
    }
}

/// Whether the packet length field matches the buffer size.
pub open spec fn check_packet_length_result(s: Seq<u8>) -> Result<bool, Exception> {
    match packet_length_result(s) {
        Err(e) => Err(e),
        Ok(v) => Ok(v as int == expected_packet_length(s.len())),
    }
}

/// The byte where the checksum of a buffer of `n` bytes starts.
pub open spec fn crc_pos(n: nat) -> int {
    n - CRC_BYTE_SIZE
}

/// `s` with the CRC-16 of all bytes before its last two written into its
/// last two bytes, big-endian.
pub open spec fn with_checksum(s: Seq<u8>) -> Seq<u8> {
    with_bytes(
        s,
        crc_pos(s.len()),
        be_bytes(crc16(s.take(crc_pos(s.len()))) as nat, CRC_BYTE_SIZE as nat),
    )
}

/// Whether the last two bytes of `s` hold the CRC-16 of the bytes before them.
pub open spec fn checksum_matches(s: Seq<u8>) -> bool {
    bits_value(s, 8 * crc_pos(s.len()), 8 * CRC_BYTE_SIZE as nat) == crc16(
        s.take(crc_pos(s.len())),
    ) as nat
}

/// What checking the checksum gives.
pub open spec fn check_checksum_result(s: Seq<u8>) -> Result<bool, Exception> {
    match check_packet_length_result(s) {
        Err(e) => Err(e),
        Ok(false) => Ok(false),
        Ok(true) => Ok(checksum_matches(s)),
    }
}

/// What reading a CUC time field of `data_size` bytes at `byte_pos` gives:
/// the bytes of the field, whose first byte must be the p-field if the
/// format carries one.
pub open spec fn cuc_time_bytes_result(
    s: Seq<u8>,
    byte_pos: int,
    p_field: u8,
    data_size: int,
    has_p_field: bool,
) -> Result<Seq<u8>, Exception> {
    if byte_pos + data_size > s.len() {
        Err(Exception::CucTimeOutOfBuffer)
    } else if has_p_field && p_field != s[byte_pos] {
        Err(Exception::UnexpectedPField)
    } else {
        Ok(s.subrange(byte_pos, byte_pos + data_size))
    }
}

// ---------------------------------------------------------------------------
// the packet interface
// ---------------------------------------------------------------------------

/// A CCSDS space packet.
pub trait PacketIntf: DUintf {
    // access methods (convenience methods)
    /// Reads the packet version number.
    fn get_version_number_field(&self) -> (r: Result<u32, Exception>)
        ensures
            r == get_bits_result(
                self.bytes(),
                VERSION_NUMBER_BIT_POS as int,
                VERSION_NUMBER_BIT_LENGTH as nat,
            ),
    {
        self.get_bits(VERSION_NUMBER_BIT_POS, VERSION_NUMBER_BIT_LENGTH)
    }

    /// Writes the packet version number.
    fn set_version_number_field(&mut self, value: u32) -> (r: Result<(), Exception>)
        requires
            old(self).writable() || set_bits_error(
                old(self).bytes(),
                VERSION_NUMBER_BIT_POS as int,
                VERSION_NUMBER_BIT_LENGTH as nat,
                value as nat,
            ) is Some,
        ensures
            final(self).writable() == old(self).writable(),
            old(self).inner() matches HybridVector::ReadWrite(r0) ==> final(self).inner() matches HybridVector::ReadWrite(
                r1,
            ) && final(r1)@ == final(r0)@,
            match set_bits_error(
                old(self).bytes(),
                VERSION_NUMBER_BIT_POS as int,
                VERSION_NUMBER_BIT_LENGTH as nat,
                value as nat,
            ) {
                Some(e) => r == Err::<(), Exception>(e) && final(self).bytes() == old(self).bytes(),
                None => r == Ok::<(), Exception>(()) && final(self).bytes() == with_bits(
                    old(self).bytes(),
                    VERSION_NUMBER_BIT_POS as int,
                    VERSION_NUMBER_BIT_LENGTH as nat,
                    value as nat,
                ),
            },
    {
        self.set_bits(VERSION_NUMBER_BIT_POS, VERSION_NUMBER_BIT_LENGTH, value)
    }

    /// Reads the packet type.
    fn get_packet_type_field(&self) -> (r: Result<u32, Exception>)
        ensures
            r == get_bits_result(self.bytes(), PACKET_TYPE_BIT_POS as int, PACKET_TYPE_BIT_LENGTH as nat),
    {
        self.get_bits(PACKET_TYPE_BIT_POS, PACKET_TYPE_BIT_LENGTH)
    }

    /// Writes the packet type.
    fn set_packet_type_field(&mut self, value: u32) -> (r: Result<(), Exception>)
        requires
            old(self).writable() || set_bits_error(
                old(self).bytes(),
                PACKET_TYPE_BIT_POS as int,
                PACKET_TYPE_BIT_LENGTH as nat,
                value as nat,
            ) is Some,
        ensures
            final(self).writable() == old(self).writable(),
            old(self).inner() matches HybridVector::ReadWrite(r0) ==> final(self).inner() matches HybridVector::ReadWrite(
                r1,
            ) && final(r1)@ == final(r0)@,
            match set_bits_error(
                old(self).bytes(),
                PACKET_TYPE_BIT_POS as int,
                PACKET_TYPE_BIT_LENGTH as nat,
                value as nat,
            ) {
                Some(e) => r == Err::<(), Exception>(e) && final(self).bytes() == old(self).bytes(),
                None => r == Ok::<(), Exception>(()) && final(self).bytes() == with_bits(
                    old(self).bytes(),
                    PACKET_TYPE_BIT_POS as int,
                    PACKET_TYPE_BIT_LENGTH as nat,
                    value as nat,
                ),
            },
    {
        self.set_bits(PACKET_TYPE_BIT_POS, PACKET_TYPE_BIT_LENGTH, value)
    }

    /// Reads the data field header flag.
    fn get_data_field_header_flag_field(&self) -> (r: Result<u32, Exception>)
        ensures
            r == get_bits_result(self.bytes(), DATA_FIELD_HEADER_FLAG_BIT_POS as int, DATA_FIELD_HEADER_FLAG_BIT_LENGTH as nat),
    {
        self.get_bits(DATA_FIELD_HEADER_FLAG_BIT_POS, DATA_FIELD_HEADER_FLAG_BIT_LENGTH)
    }

    /// Writes the data field header flag.
    fn set_data_field_header_flag_field(&mut self, value: u32) -> (r: Result<(), Exception>)
        requires
            old(self).writable() || set_bits_error(
                old(self).bytes(),
                DATA_FIELD_HEADER_FLAG_BIT_POS as int,
                DATA_FIELD_HEADER_FLAG_BIT_LENGTH as nat,
                value as nat,
            ) is Some,
        ensures
            final(self).writable() == old(self).writable(),
            old(self).inner() matches HybridVector::ReadWrite(r0) ==> final(self).inner() matches HybridVector::ReadWrite(
                r1,
            ) && final(r1)@ == final(r0)@,
            match set_bits_error(
                old(self).bytes(),
                DATA_FIELD_HEADER_FLAG_BIT_POS as int,
                DATA_FIELD_HEADER_FLAG_BIT_LENGTH as nat,
                value as nat,
            ) {
                Some(e) => r == Err::<(), Exception>(e) && final(self).bytes() == old(self).bytes(),
                None => r == Ok::<(), Exception>(()) && final(self).bytes() == with_bits(
                    old(self).bytes(),
                    DATA_FIELD_HEADER_FLAG_BIT_POS as int,
                    DATA_FIELD_HEADER_FLAG_BIT_LENGTH as nat,
                    value as nat,
                ),
            },
    {
        self.set_bits(DATA_FIELD_HEADER_FLAG_BIT_POS, DATA_FIELD_HEADER_FLAG_BIT_LENGTH, value)
    }

    /// Reads the application process identifier.
    fn get_application_process_id_field(&self) -> (r: Result<u32, Exception>)
        ensures
            r == get_bits_result(self.bytes(), APPLICATION_PROCESS_ID_BIT_POS as int, APPLICATION_PROCESS_ID_BIT_LENGTH as nat),
    {
        self.get_bits(APPLICATION_PROCESS_ID_BIT_POS, APPLICATION_PROCESS_ID_BIT_LENGTH)
    }

    /// Writes the application process identifier.
    fn set_application_process_id_field(&mut self, value: u32) -> (r: Result<(), Exception>)
        requires
            old(self).writable() || set_bits_error(
                old(self).bytes(),
                APPLICATION_PROCESS_ID_BIT_POS as int,
                APPLICATION_PROCESS_ID_BIT_LENGTH as nat,
                value as nat,
            ) is Some,
        ensures
            final(self).writable() == old(self).writable(),
            old(self).inner() matches HybridVector::ReadWrite(r0) ==> final(self).inner() matches HybridVector::ReadWrite(
                r1,
            ) && final(r1)@ == final(r0)@,
            match set_bits_error(
                old(self).bytes(),
                APPLICATION_PROCESS_ID_BIT_POS as int,
                APPLICATION_PROCESS_ID_BIT_LENGTH as nat,
                value as nat,
            ) {
                Some(e) => r == Err::<(), Exception>(e) && final(self).bytes() == old(self).bytes(),
                None => r == Ok::<(), Exception>(()) && final(self).bytes() == with_bits(
                    old(self).bytes(),
                    APPLICATION_PROCESS_ID_BIT_POS as int,
                    APPLICATION_PROCESS_ID_BIT_LENGTH as nat,
                    value as nat,
                ),
            },
    {
        self.set_bits(APPLICATION_PROCESS_ID_BIT_POS, APPLICATION_PROCESS_ID_BIT_LENGTH, value)
    }

    /// Reads the segmentation flags.
    fn get_segmentation_flags_field(&self) -> (r: Result<u32, Exception>)
        ensures
            r == get_bits_result(self.bytes(), SEGMENTATION_FLAGS_BIT_POS as int, SEGMENTATION_FLAGS_BIT_LENGTH as nat),
    {
        self.get_bits(SEGMENTATION_FLAGS_BIT_POS, SEGMENTATION_FLAGS_BIT_LENGTH)
    }

    /// Writes the segmentation flags.
    fn set_segmentation_flags_field(&mut self, value: u32) -> (r: Result<(), Exception>)
        requires
            old(self).writable() || set_bits_error(
                old(self).bytes(),
                SEGMENTATION_FLAGS_BIT_POS as int,
                SEGMENTATION_FLAGS_BIT_LENGTH as nat,
                value as nat,
            ) is Some,
        ensures
            final(self).writable() == old(self).writable(),
            old(self).inner() matches HybridVector::ReadWrite(r0) ==> final(self).inner() matches HybridVector::ReadWrite(
                r1,
            ) && final(r1)@ == final(r0)@,
            match set_bits_error(
                old(self).bytes(),
                SEGMENTATION_FLAGS_BIT_POS as int,
                SEGMENTATION_FLAGS_BIT_LENGTH as nat,
                value as nat,
            ) {
                Some(e) => r == Err::<(), Exception>(e) && final(self).bytes() == old(self).bytes(),
                None => r == Ok::<(), Exception>(()) && final(self).bytes() == with_bits(
                    old(self).bytes(),
                    SEGMENTATION_FLAGS_BIT_POS as int,
                    SEGMENTATION_FLAGS_BIT_LENGTH as nat,
                    value as nat,
                ),
            },
    {
        self.set_bits(SEGMENTATION_FLAGS_BIT_POS, SEGMENTATION_FLAGS_BIT_LENGTH, value)
    }

    /// Reads the sequence control count.
    fn get_sequence_control_count_field(&self) -> (r: Result<u32, Exception>)
        ensures
            r == get_bits_result(self.bytes(), SEQUENCE_CONTROL_COUNT_BIT_POS as int, SEQUENCE_CONTROL_COUNT_BIT_LENGTH as nat),
    {
        self.get_bits(SEQUENCE_CONTROL_COUNT_BIT_POS, SEQUENCE_CONTROL_COUNT_BIT_LENGTH)
    }

    /// Writes the sequence control count.
    fn set_sequence_control_count_field(&mut self, value: u32) -> (r: Result<(), Exception>)
        requires
            old(self).writable() || set_bits_error(
                old(self).bytes(),
                SEQUENCE_CONTROL_COUNT_BIT_POS as int,
                SEQUENCE_CONTROL_COUNT_BIT_LENGTH as nat,
                value as nat,
            ) is Some,
        ensures
            final(self).writable() == old(self).writable(),
            old(self).inner() matches HybridVector::ReadWrite(r0) ==> final(self).inner() matches HybridVector::ReadWrite(
                r1,
            ) && final(r1)@ == final(r0)@,
            match set_bits_error(
                old(self).bytes(),
                SEQUENCE_CONTROL_COUNT_BIT_POS as int,
                SEQUENCE_CONTROL_COUNT_BIT_LENGTH as nat,
                value as nat,
            ) {
                Some(e) => r == Err::<(), Exception>(e) && final(self).bytes() == old(self).bytes(),
                None => r == Ok::<(), Exception>(()) && final(self).bytes() == with_bits(
                    old(self).bytes(),
                    SEQUENCE_CONTROL_COUNT_BIT_POS as int,
                    SEQUENCE_CONTROL_COUNT_BIT_LENGTH as nat,
                    value as nat,
                ),
            },
    {
        self.set_bits(SEQUENCE_CONTROL_COUNT_BIT_POS, SEQUENCE_CONTROL_COUNT_BIT_LENGTH, value)
    }


    /// Reads the packet length.
    fn get_packet_length_field(&self) -> (r: Result<u32, Exception>)
        ensures
            r == packet_length_result(self.bytes()),
    {
        self.get_unsigned(PACKET_LENGTH_BYTE_POS, PACKET_LENGTH_BYTE_LENGTH)
    }

    /// Writes the packet length.
    fn set_packet_length_field(&mut self, value: u32) -> (r: Result<(), Exception>)
        requires
            old(self).writable() || set_unsigned_error(
                old(self).bytes(),
                PACKET_LENGTH_BYTE_POS as int,
                PACKET_LENGTH_BYTE_LENGTH as nat,
                value as nat,
            ) is Some,
        ensures
            final(self).writable() == old(self).writable(),
            old(self).inner() matches HybridVector::ReadWrite(r0) ==> final(self).inner() matches HybridVector::ReadWrite(
                r1,
            ) && final(r1)@ == final(r0)@,
            match set_unsigned_error(
                old(self).bytes(),
                PACKET_LENGTH_BYTE_POS as int,
                PACKET_LENGTH_BYTE_LENGTH as nat,
                value as nat,
            ) {
                Some(e) => r == Err::<(), Exception>(e) && final(self).bytes() == old(self).bytes(),
                None => r == Ok::<(), Exception>(()) && final(self).bytes() == with_packet_length(
                    old(self).bytes(),
                    value as nat,
                ),
            },
    {
        self.set_unsigned(PACKET_LENGTH_BYTE_POS, PACKET_LENGTH_BYTE_LENGTH, value)
    }

    // field accessors
    /// Reads the CUC time field of `data_size` bytes at `byte_pos`, whose
    /// format the p-field `p_field` describes, and returns its bytes.
    /// `data_size` is the full size of the time that the p-field describes and
    /// `has_p_field` tells whether that time carries the p-field in its first byte.
    fn get_cuc_time(&self, byte_pos: usize, p_field: u8, data_size: usize, has_p_field: bool) -> (r:
        Result<Vec<u8>, Exception>)
        requires
            byte_pos + data_size <= usize::MAX,
            has_p_field ==> byte_pos < self.bytes().len() || byte_pos + data_size > self.bytes().len(),
        ensures
            match cuc_time_bytes_result(
                self.bytes(),
                byte_pos as int,
                p_field,
                data_size as int,
                has_p_field,
            ) {
                Ok(t) => r matches Ok(v) && v@ == t,
                Err(e) => r == Err::<Vec<u8>, Exception>(e),
            },
    {
        // consistency checks
        if byte_pos + data_size > self.size() {
            return Err(Exception::CucTimeOutOfBuffer);
        }
        if has_p_field && p_field != self.at(byte_pos) {
            return Err(Exception::UnexpectedPField);
        }
        // copy the exact amount of bytes of the time field
        let buffer = self.buffer_read_only();
        Ok(slice_to_vec(slice_subrange(buffer, byte_pos, byte_pos + data_size)))
    }

    /// Writes the bytes of a CUC time from byte `byte_pos` on.
    fn set_cuc_time(&mut self, byte_pos: usize, time_bytes: &[u8]) -> (r: Result<(), Exception>)
        requires
            old(self).writable() || byte_pos + time_bytes@.len() > old(self).bytes().len(),
            byte_pos + time_bytes@.len() <= usize::MAX,
        ensures
            final(self).writable() == old(self).writable(),
            old(self).inner() matches HybridVector::ReadWrite(r0) ==> final(self).inner() matches HybridVector::ReadWrite(
                r1,
            ) && final(r1)@ == final(r0)@,
            if byte_pos + time_bytes@.len() > old(self).bytes().len() {
                r == Err::<(), Exception>(Exception::CucTimeOutOfBuffer) && final(self).bytes()
                    == old(self).bytes()
            } else {
                r == Ok::<(), Exception>(()) && final(self).bytes() == with_bytes(
                    old(self).bytes(),
                    byte_pos as int,
                    time_bytes@,
                )
            },
    {
        // consistency checks
        let data_size = time_bytes.len();
        let size = self.size();
        if byte_pos + data_size > size {
            return Err(Exception::CucTimeOutOfBuffer);
        }
        let ghost s0 = self.bytes();
        let mut k: usize = 0;
        while k < data_size
            invariant
                self.writable(),
                old(self).inner() matches HybridVector::ReadWrite(r0) ==> self.inner() matches HybridVector::ReadWrite(
                    r1,
                ) && final(r1)@ == final(r0)@,
                s0 == old(self).bytes(),
                size == s0.len(),
                data_size == time_bytes@.len(),
                byte_pos + data_size <= s0.len(),
                k <= data_size,
                self.bytes() == with_bytes(s0, byte_pos as int, time_bytes@.take(k as int)),
            decreases data_size - k,
        {
            self.set_at(byte_pos + k, time_bytes[k]);
            k = k + 1;
            assert(self.bytes() =~= with_bytes(s0, byte_pos as int, time_bytes@.take(k as int)));
        }
        assert(time_bytes@.take(data_size as int) =~= time_bytes@);
        Ok(())
    }

    /// Reads the CUC time field `acc` (see `get_cuc_time`).
    fn get_cuc_time_acc(&self, acc: CucTimeAccessor, data_size: usize, has_p_field: bool) -> (r:
        Result<Vec<u8>, Exception>)
        requires
            acc.byte_pos + data_size <= usize::MAX,
            has_p_field ==> acc.byte_pos < self.bytes().len() || acc.byte_pos + data_size > self.bytes().len(),
        ensures
            match cuc_time_bytes_result(
                self.bytes(),
                acc.byte_pos as int,
                acc.p_field,
                data_size as int,
                has_p_field,
            ) {
                Ok(t) => r matches Ok(v) && v@ == t,
                Err(e) => r == Err::<Vec<u8>, Exception>(e),
            },
    {
        self.get_cuc_time(acc.byte_pos, acc.p_field, data_size, has_p_field)
    }

    /// Writes the bytes of a CUC time into the field `acc`.
    fn set_cuc_time_acc(&mut self, acc: CucTimeAccessor, time_bytes: &[u8]) -> (r: Result<
        (),
        Exception,
    >)
        requires
            old(self).writable() || acc.byte_pos + time_bytes@.len() > old(self).bytes().len(),
            acc.byte_pos + time_bytes@.len() <= usize::MAX,
        ensures
            final(self).writable() == old(self).writable(),
            old(self).inner() matches HybridVector::ReadWrite(r0) ==> final(self).inner() matches HybridVector::ReadWrite(
                r1,
            ) && final(r1)@ == final(r0)@,
            if acc.byte_pos + time_bytes@.len() > old(self).bytes().len() {
                r == Err::<(), Exception>(Exception::CucTimeOutOfBuffer) && final(self).bytes()
                    == old(self).bytes()
            } else {
                r == Ok::<(), Exception>(()) && final(self).bytes() == with_bytes(
                    old(self).bytes(),
                    acc.byte_pos as int,
                    time_bytes@,
                )
            },
    {
        self.set_cuc_time(acc.byte_pos, time_bytes)
    }

    // other methods
    /// Sets the packet length according to the buffer size.
    fn set_packet_length(&mut self) -> (r: Result<(), Exception>)
        requires
            old(self).writable() || set_packet_length_error(old(self).bytes()) is Some,
        ensures
            final(self).writable() == old(self).writable(),
            old(self).inner() matches HybridVector::ReadWrite(r0) ==> final(self).inner() matches HybridVector::ReadWrite(
                r1,
            ) && final(r1)@ == final(r0)@,
            match set_packet_length_error(old(self).bytes()) {
                Some(e) => r == Err::<(), Exception>(e) && final(self).bytes() == old(self).bytes(),
                None => r == Ok::<(), Exception>(()) && final(self).bytes() == with_packet_length(
                    old(self).bytes(),
                    expected_packet_length(old(self).bytes().len()) as nat,
                ),
            },
    {
        let size = self.size();
        if size < PRIMARY_HEADER_BYTE_SIZE + 1 {
            return Err(Exception::PacketTooSmall);
        }
        let length_value = size - PRIMARY_HEADER_BYTE_SIZE - 1;
        if length_value > (u32::MAX as usize) {
            return Err(Exception::PacketTooLarge);
        }
        self.set_packet_length_field(length_value as u32)
    }

    /// Checks the packet length against the buffer size.
    fn check_packet_length(&self) -> (r: Result<bool, Exception>)
        requires
            self.bytes().len() != PRIMARY_HEADER_BYTE_SIZE,
        ensures
            r == check_packet_length_result(self.bytes()),
    {
        let length = self.get_packet_length_field()?;
        Ok((length as usize) == (self.size() - PRIMARY_HEADER_BYTE_SIZE - 1))
    }

    /// Sets the checksum in the last two bytes from the bytes before them;
    /// the packet length must match the buffer size.
    fn set_checksum(&mut self) -> (r: Result<(), Exception>)
        requires
            old(self).writable() || check_packet_length_result(old(self).bytes()) != Ok::<bool, Exception>(true),
            old(self).bytes().len() != PRIMARY_HEADER_BYTE_SIZE,
        ensures
            final(self).writable() == old(self).writable(),
            old(self).inner() matches HybridVector::ReadWrite(r0) ==> final(self).inner() matches HybridVector::ReadWrite(
                r1,
            ) && final(r1)@ == final(r0)@,
            match check_packet_length_result(old(self).bytes()) {
                Err(e) => r == Err::<(), Exception>(e) && final(self).bytes() == old(self).bytes(),
                Ok(false) => r == Err::<(), Exception>(Exception::InconsistentPacketLength)
                    && final(self).bytes() == old(self).bytes(),
                Ok(true) => r == Ok::<(), Exception>(()) && final(self).bytes() == with_checksum(
                    old(self).bytes(),
                ),
            },
    {
        if !self.check_packet_length()? {
            return Err(Exception::InconsistentPacketLength);
        }
        let crc_pos = self.size() - CRC_BYTE_SIZE;
        let crc = calculate16(self.buffer_read_only(), crc_pos);
        proof {
            lemma_two_pow_16();
        }
        self.set_unsigned(crc_pos, CRC_BYTE_SIZE, crc as u32)
    }

    /// Checks the checksum in the last two bytes against the bytes before them.
    fn check_checksum(&self) -> (r: Result<bool, Exception>)
        requires
            self.bytes().len() != PRIMARY_HEADER_BYTE_SIZE,
        ensures
            r == check_checksum_result(self.bytes()),
    {
        if !self.check_packet_length()? {
            return Ok(false);
        }
        let crc_pos = self.size() - CRC_BYTE_SIZE;
        let crc = calculate16(self.buffer_read_only(), crc_pos);
        let stored = self.get_unsigned(crc_pos, CRC_BYTE_SIZE)?;
        proof {
            lemma_two_pow_16();
            lemma_bits_value_bound(self.bytes(), 8 * crc_pos, 16);
        }
        Ok(stored == (crc as u32))
    }
}

/// 2 to the power of 16.
pub proof fn lemma_two_pow_16()
    ensures
        two_pow(16) == 0x1_0000,
{
    reveal_with_fuel(two_pow, 17);
}

// ---------------------------------------------------------------------------
// laws of packets
// ---------------------------------------------------------------------------

/// After the packet length has been set from the buffer size, checking it
/// succeeds.
pub proof fn check_packet_length_after_set_packet_length(s: Seq<u8>)
    requires
        set_packet_length_error(s) is None,
    ensures
        check_packet_length_result(
            with_packet_length(s, expected_packet_length(s.len()) as nat),
        ) == Ok::<bool, Exception>(true),
{
    get_unsigned_after_set_unsigned(
        s,
        PACKET_LENGTH_BYTE_POS as int,
        PACKET_LENGTH_BYTE_LENGTH as nat,
        expected_packet_length(s.len()) as u32,
    );
}

/// A packet made by `new_alloc` has a packet length that matches its size.
pub proof fn allocated_packet_length_is_consistent(size: nat)
    requires
        PRIMARY_HEADER_BYTE_SIZE + 1 <= size <= PRIMARY_HEADER_BYTE_SIZE + 1 + 0xFFFF,
    ensures
        check_packet_length_result(
            with_packet_length(
                Seq::new(size, |i: int| 0u8),
                expected_packet_length(size) as nat,
            ),
        ) == Ok::<bool, Exception>(true),
{
    lemma_two_pow_16();
    check_packet_length_after_set_packet_length(Seq::new(size, |i: int| 0u8));
}

/// After the checksum has been set in a packet of at least 8 bytes whose
/// packet length matches its size, the packet length still matches and
/// checking the checksum succeeds. (In a packet of 7 bytes the checksum
/// overwrites the low byte of the packet length.)
pub proof fn check_checksum_after_set_checksum(s: Seq<u8>)
    requires
        check_packet_length_result(s) == Ok::<bool, Exception>(true),
        s.len() >= PRIMARY_HEADER_BYTE_SIZE + 2,
    ensures
        with_checksum(s).len() == s.len(),
        check_packet_length_result(with_checksum(s)) == Ok::<bool, Exception>(true),
        check_checksum_result(with_checksum(s)) == Ok::<bool, Exception>(true),
{
    let n = s.len();
    let p = 8 * crc_pos(n);
    let crc = crc16(s.take(crc_pos(n)));
    let t = with_checksum(s);
    lemma_with_bits_be_bytes(s, crc_pos(n), 2, crc as nat);
    lemma_two_pow_16();
    lemma_with_bits_len(s, p, 16, crc as nat);
    lemma_get_with_bits(s, p, 16, crc as nat);
    lemma_with_bits_other_field(s, p, 16, crc as nat, 32, 16);
    assert forall|k: int| 0 <= k < crc_pos(n) implies t[k] == s[k] by {
        lemma_with_bits_bytes_frame(s, p, 16, crc as nat, k);
    }
    assert(t.take(crc_pos(n)) =~= s.take(crc_pos(n)));
}

/// After the bytes of a CUC time have been written into a packet, reading the
/// time field gives them back, when the p-field that the reader expects is
/// their first byte or the format carries none.
pub proof fn get_cuc_time_after_set_cuc_time(
    s: Seq<u8>,
    byte_pos: int,
    time_bytes: Seq<u8>,
    p_field: u8,
    has_p_field: bool,
)
    requires
        0 <= byte_pos,
        byte_pos + time_bytes.len() <= s.len(),
        has_p_field ==> time_bytes.len() > 0 && time_bytes[0] == p_field,
    ensures
        with_bytes(s, byte_pos, time_bytes).len() == s.len(),
        cuc_time_bytes_result(
            with_bytes(s, byte_pos, time_bytes),
            byte_pos,
            p_field,
            time_bytes.len() as int,
            has_p_field,
        ) == Ok::<Seq<u8>, Exception>(time_bytes),
{
    let t = with_bytes(s, byte_pos, time_bytes);
    assert(t.subrange(byte_pos, byte_pos + time_bytes.len()) =~= time_bytes);
}

/// In a packet of at least 8 bytes whose checksum has just been set, a change
/// confined to any one byte makes the checksum check fail: in the packet
/// length field the length check fails, elsewhere the CRC-16 no longer
/// matches.
pub proof fn check_checksum_detects_one_byte_change(s: Seq<u8>, t: Seq<u8>, k: int)
    requires
        check_packet_length_result(s) == Ok::<bool, Exception>(true),
        s.len() >= PRIMARY_HEADER_BYTE_SIZE + 2,
        t.len() == s.len(),
        0 <= k < t.len(),
        t[k] != with_checksum(s)[k],
        forall|i: int| 0 <= i < t.len() && i != k ==> t[i] == with_checksum(s)[i],
    ensures
        check_checksum_result(t) == Ok::<bool, Exception>(false),
{
    let w = with_checksum(s);
    let n = s.len();
    let c = crc_pos(n);
    check_checksum_after_set_checksum(s);
    lemma_two_pow_16();
    lemma_bits_value_u16(w, 4);
    lemma_bits_value_u16(t, 4);
    lemma_bits_value_u16(w, c);
    lemma_bits_value_u16(t, c);
    lemma_bits_value_bound(t, 32, 16);
    lemma_bits_value_bound(w, 32, 16);
    if k == 4 || k == 5 {
        assert(bits_value(t, 32, 16) != bits_value(w, 32, 16));
    } else if k >= c {
        assert(t.take(c) =~= w.take(c));
        assert(bits_value(t, 8 * c, 16) != bits_value(w, 8 * c, 16));
    } else {
        assert(bits_value(t, 8 * c, 16) == bits_value(w, 8 * c, 16));
        crc16_detects_one_byte_change(t.take(c), w.take(c), k);
    }
}

/// Flipping any one bit of a packet of at least 8 bytes whose checksum has
/// just been set makes the checksum check fail.
pub proof fn check_checksum_detects_bit_flip(s: Seq<u8>, k: int, j: u8)
    requires
        check_packet_length_result(s) == Ok::<bool, Exception>(true),
        s.len() >= PRIMARY_HEADER_BYTE_SIZE + 2,
        0 <= k < s.len(),
        j < 8,
    ensures
        with_checksum(s).len() == s.len(),
        check_checksum_result(
            with_checksum(s).update(k, with_checksum(s)[k] ^ (1u8 << j)),
        ) == Ok::<bool, Exception>(false),
{
    let w = with_checksum(s);
    check_checksum_after_set_checksum(s);
    let x = w[k];
    assert(j < 8 ==> x ^ (1u8 << j) != x) by (bit_vector);
    check_checksum_detects_one_byte_change(s, w.update(k, x ^ (1u8 << j)), k);
}

/// What reading a CUC time field gives depends only on the bytes of the
/// field, for a format whose p-field, if any, lies inside the field.
pub proof fn get_cuc_time_depends_on_field_only(
    s: Seq<u8>,
    t: Seq<u8>,
    byte_pos: int,
    p_field: u8,
    data_size: int,
    has_p_field: bool,
)
    requires
        0 <= byte_pos,
        0 <= data_size,
        has_p_field ==> data_size > 0,
        byte_pos + data_size <= s.len(),
        byte_pos + data_size <= t.len(),
        s.subrange(byte_pos, byte_pos + data_size) == t.subrange(byte_pos, byte_pos + data_size),
    ensures
        cuc_time_bytes_result(s, byte_pos, p_field, data_size, has_p_field)
            == cuc_time_bytes_result(t, byte_pos, p_field, data_size, has_p_field),
{
    let fs = s.subrange(byte_pos, byte_pos + data_size);
    let ft = t.subrange(byte_pos, byte_pos + data_size);
    if has_p_field {
        assert(fs[0] == s[byte_pos]);
        assert(ft[0] == t[byte_pos]);
    }
}

/// The packet length check reads bytes 4 and 5 as a big-endian number and
/// accepts exactly when that number is the buffer size minus 7 (the size of
/// the primary header plus one); a buffer of fewer than 6 bytes has no
/// packet length field.
pub proof fn check_packet_length_accepts_exactly_size_minus_seven(s: Seq<u8>)
    ensures
        s.len() < 6 ==> check_packet_length_result(s) == Err::<bool, Exception>(
            Exception::FieldOutOfBuffer,
        ),
        s.len() >= 6 ==> check_packet_length_result(s) == Ok::<bool, Exception>(
            256 * s[4] + s[5] == s.len() - 7,
        ),
{
    if s.len() >= 6 {
        lemma_bits_value_u16(s, 4);
        lemma_bits_value_bound(s, 32, 16);
        lemma_two_pow_16();
    }
}

/// Setting the packet length succeeds on every buffer of 7 to 7 + 0xFFFF
/// bytes and then writes the size minus 7 big-endian into bytes 4 and 5,
/// leaving every other byte as it was; a buffer of fewer than 7 bytes is too
/// small, and a larger one holds a size that does not fit the field.
pub proof fn set_packet_length_accepts_every_packet_size(s: Seq<u8>)
    ensures
        s.len() < 7 ==> set_packet_length_error(s) == Some(Exception::PacketTooSmall),
        7 <= s.len() <= 7 + 0xFFFF ==> {
            let t = with_packet_length(s, (s.len() - 7) as nat);
            &&& set_packet_length_error(s) is None
            &&& t.len() == s.len()
            &&& t[4] == ((s.len() - 7) / 256) as u8
            &&& t[5] == ((s.len() - 7) % 256) as u8
            &&& forall|i: int| 0 <= i < s.len() && i != 4 && i != 5 ==> t[i] == s[i]
        },
        7 + 0xFFFF < s.len() ==> set_packet_length_error(s) == Some(
            if s.len() - 7 > u32::MAX {
                Exception::PacketTooLarge
            } else {
                Exception::ValueOutOfRange
            },
        ),
{
    lemma_two_pow_16();
    reveal_with_fuel(be_bytes, 3);
}

/// Reading a CUC time field that lies inside the buffer fails with
/// `UnexpectedPField` exactly when the format carries a p-field and the
/// byte at `byte_pos` is not that p-field; otherwise it returns the
/// `data_size` bytes from `byte_pos` on. A field that does not lie inside the
/// buffer gives `CucTimeOutOfBuffer`.
pub proof fn get_cuc_time_checks_the_whole_p_field(
    s: Seq<u8>,
    byte_pos: int,
    p_field: u8,
    data_size: int,
    has_p_field: bool,
)
    requires
        0 <= byte_pos,
        0 <= data_size,
    ensures
        byte_pos + data_size > s.len() ==> cuc_time_bytes_result(
            s,
            byte_pos,
            p_field,
            data_size,
            has_p_field,
        ) == Err::<Seq<u8>, Exception>(Exception::CucTimeOutOfBuffer),
        byte_pos + data_size <= s.len() && byte_pos < s.len() && has_p_field && s[byte_pos]
            != p_field ==> cuc_time_bytes_result(s, byte_pos, p_field, data_size, has_p_field)
            == Err::<Seq<u8>, Exception>(Exception::UnexpectedPField),
        byte_pos + data_size <= s.len() && (!has_p_field || s[byte_pos] == p_field)
            ==> (cuc_time_bytes_result(s, byte_pos, p_field, data_size, has_p_field) matches Ok(t)
            && t.len() == data_size && forall|i: int|
            0 <= i < data_size ==> #[trigger] t[i] == s[byte_pos + i]),
{
}

proof fn lemma_header_byte0(s: Seq<u8>)
    requires
        s.len() >= 1,
    ensures
        bits_value(s, 0, 3) == s[0] >> 5u8,
        bits_value(s, 3, 1) == (s[0] >> 4u8) & 1u8,
        bits_value(s, 4, 1) == (s[0] >> 3u8) & 1u8,
        bits_value(s, 5, 3) == s[0] & 7u8,
{
    let x = s[0];
    reveal_with_fuel(bits_value, 4);
    assert(bit_at(s, 0) == (x >> 7u8) & 1u8);
    assert(bit_at(s, 1) == (x >> 6u8) & 1u8);
    assert(bit_at(s, 2) == (x >> 5u8) & 1u8);
    assert(bit_at(s, 3) == (x >> 4u8) & 1u8);
    assert(bit_at(s, 4) == (x >> 3u8) & 1u8);
    assert(bit_at(s, 5) == (x >> 2u8) & 1u8);
    assert(bit_at(s, 6) == (x >> 1u8) & 1u8);
    assert(bit_at(s, 7) == (x >> 0u8) & 1u8);
    assert(x >> 5u8 == 2 * (2 * ((x >> 7u8) & 1u8) + ((x >> 6u8) & 1u8)) + ((x >> 5u8) & 1u8))
        by (bit_vector);
    assert(x & 7u8 == 2 * (2 * ((x >> 2u8) & 1u8) + ((x >> 1u8) & 1u8)) + ((x >> 0u8) & 1u8))
        by (bit_vector);
}

proof fn lemma_header_byte2(s: Seq<u8>)
    requires
        s.len() >= 3,
    ensures
        bits_value(s, 16, 2) == s[2] >> 6u8,
        bits_value(s, 18, 6) == s[2] & 0x3Fu8,
{
    let x = s[2];
    reveal_with_fuel(bits_value, 7);
    assert(bit_at(s, 16) == (x >> 7u8) & 1u8);
    assert(bit_at(s, 17) == (x >> 6u8) & 1u8);
    assert(bit_at(s, 18) == (x >> 5u8) & 1u8);
    assert(bit_at(s, 19) == (x >> 4u8) & 1u8);
    assert(bit_at(s, 20) == (x >> 3u8) & 1u8);
    assert(bit_at(s, 21) == (x >> 2u8) & 1u8);
    assert(bit_at(s, 22) == (x >> 1u8) & 1u8);
    assert(bit_at(s, 23) == (x >> 0u8) & 1u8);
    assert(x >> 6u8 == 2 * ((x >> 7u8) & 1u8) + ((x >> 6u8) & 1u8)) by (bit_vector);
    assert(x & 0x3Fu8 == 2 * (2 * (2 * (2 * (2 * ((x >> 5u8) & 1u8) + ((x >> 4u8) & 1u8)) + ((x
        >> 3u8) & 1u8)) + ((x >> 2u8) & 1u8)) + ((x >> 1u8) & 1u8)) + ((x >> 0u8) & 1u8))
        by (bit_vector);
}

/// The primary header fields, read from the first 6 bytes: the version
/// number is the top 3 bits of byte 0, then come the packet type bit and the
/// data field header flag bit, the application process identifier is the
/// low 3 bits of byte 0 followed by byte 1, the segmentation flags are the
/// top 2 bits of byte 2, the sequence control count is the low 6 bits of
/// byte 2 followed by byte 3, and the packet length is bytes 4 and 5,
/// big-endian.
pub proof fn primary_header_fields_from_bytes(s: Seq<u8>)
    requires
        s.len() >= PRIMARY_HEADER_BYTE_SIZE,
    ensures
        get_bits_result(s, VERSION_NUMBER_BIT_POS as int, VERSION_NUMBER_BIT_LENGTH as nat)
            == Ok::<u32, Exception>((s[0] >> 5u8) as u32),
        get_bits_result(s, PACKET_TYPE_BIT_POS as int, PACKET_TYPE_BIT_LENGTH as nat) == Ok::<
            u32,
            Exception,
        >(((s[0] >> 4u8) & 1u8) as u32),
        get_bits_result(
            s,
            DATA_FIELD_HEADER_FLAG_BIT_POS as int,
            DATA_FIELD_HEADER_FLAG_BIT_LENGTH as nat,
        ) == Ok::<u32, Exception>(((s[0] >> 3u8) & 1u8) as u32),
        get_bits_result(
            s,
            APPLICATION_PROCESS_ID_BIT_POS as int,
            APPLICATION_PROCESS_ID_BIT_LENGTH as nat,
        ) == Ok::<u32, Exception>((256 * (s[0] & 7u8) + s[1]) as u32),
        get_bits_result(s, SEGMENTATION_FLAGS_BIT_POS as int, SEGMENTATION_FLAGS_BIT_LENGTH as nat)
            == Ok::<u32, Exception>((s[2] >> 6u8) as u32),
        get_bits_result(
            s,
            SEQUENCE_CONTROL_COUNT_BIT_POS as int,
            SEQUENCE_CONTROL_COUNT_BIT_LENGTH as nat,
        ) == Ok::<u32, Exception>((256 * (s[2] & 0x3Fu8) + s[3]) as u32),
        packet_length_result(s) == Ok::<u32, Exception>((256 * s[4] + s[5]) as u32),
{
    lemma_header_byte0(s);
    lemma_header_byte2(s);
    assert(two_pow(8) == 256) by {
        reveal_with_fuel(two_pow, 9);
    }
    lemma_bits_value_split(s, 5, 3, 8);
    lemma_bits_value_byte(s, 1);
    lemma_bits_value_split(s, 18, 6, 8);
    lemma_bits_value_byte(s, 3);
    lemma_bits_value_u16(s, 4);
}

/// The checksum stands in the last two bytes, big-endian: setting it writes
/// the CRC-16 of all bytes before them there and changes no other byte, and
/// checking it (when the packet length matches the size) compares those two
/// bytes with the CRC-16 of the bytes before them.
pub proof fn checksum_is_crc_of_the_bytes_before_it(s: Seq<u8>)
    requires
        s.len() >= CRC_BYTE_SIZE,
    ensures
        ({
            let n = s.len() as int;
            let c = crc16(s.take(n - 2));
            let w = with_checksum(s);
            &&& w.len() == n
            &&& w[n - 2] == (c / 256) as u8
            &&& w[n - 1] == (c % 256) as u8
            &&& forall|i: int| 0 <= i < n - 2 ==> w[i] == s[i]
        }),
        check_packet_length_result(s) == Ok::<bool, Exception>(true) ==> check_checksum_result(s)
            == Ok::<bool, Exception>(
            256 * s[s.len() - 2] + s[s.len() - 1] == crc16(s.take(s.len() - 2)),
        ),
{
    reveal_with_fuel(be_bytes, 3);
    lemma_bits_value_u16(s, s.len() - 2);
    assert(8 * (s.len() - 2) == 8 * crc_pos(s.len()));
}

/// Writing the packet length into a buffer of zeros of the smallest packet
/// size leaves it all zero.
proof fn lemma_zero_packet_length(s: Seq<u8>)
    requires
        s == Seq::new((PRIMARY_HEADER_BYTE_SIZE + 1) as nat, |i: int| 0u8),
    ensures
        with_packet_length(s, 0) == s,
{
    reveal_with_fuel(be_bytes, 3);
    assert(with_packet_length(s, 0) =~= s);
}

// ---------------------------------------------------------------------------
// Packet
// ---------------------------------------------------------------------------

/// A CCSDS packet.
pub struct Packet<'a> {
    buffer: HybridVector<'a>,
}

impl<'a> DUbuffer for Packet<'a> {
    closed spec fn bytes(&self) -> Seq<u8> {
        self.buffer.bytes()
    }

    closed spec fn writable(&self) -> bool {
        self.buffer.writable()
    }

    closed spec fn inner(&self) -> HybridVector<'_> {
        self.buffer
    }

    fn buffer_read_only(&self) -> (r: &[u8]) {
        self.buffer.read_only()
    }

    fn buffer_read_write(&mut self) -> (r: &mut [u8]) {
        self.buffer.read_write()
    }

    fn size(&self) -> (n: usize) {
        self.buffer.len()
    }

    fn at(&self, pos: usize) -> (b: u8) {
        self.buffer.at(pos)
    }

    fn set_at(&mut self, pos: usize, b: u8) {
        self.buffer.set_at(pos, b)
    }

    fn resize(&mut self, new_size: usize) {
        self.buffer.resize(new_size)
    }

    proof fn lemma_bytes_of_inner(&self) {
    }
}

impl<'a> DUintf for Packet<'a> {}

impl<'a> PacketIntf for Packet<'a> {}

impl<'a> Packet<'a> {
    /// Once the packet is done with (dropped, or never used again), a
    /// caller's slice that it borrows read-write holds its bytes.
    pub proof fn lemma_resolved_writes_through(self)
        requires
            has_resolved(self),
        ensures
            self.inner() matches HybridVector::ReadWrite(r) ==> final(r)@ == self.bytes(),
    {
        assert(has_resolved(self.buffer));
        self.buffer.lemma_resolved_writes_through();
    }

    /// A packet of the primary header and one data byte, all zero but for
    /// the packet length, which matches the size.
    pub fn new() -> (packet: Packet<'a>)
        ensures
            packet.writable(),
            packet.bytes() == Seq::new((PRIMARY_HEADER_BYTE_SIZE + 1) as nat, |i: int| 0u8),
    {
        let mut packet = Packet { buffer: HybridVector::new_alloc(PRIMARY_HEADER_BYTE_SIZE + 1) };
        let _ = packet.set_packet_length();
        proof {
            lemma_zero_packet_length(Seq::new((PRIMARY_HEADER_BYTE_SIZE + 1) as nat, |i: int| 0u8));
        }
        packet
    }

    /// A packet that holds a copy of `value`.
    pub fn new_clone(value: &Vec<u8>) -> (packet: Packet<'a>)
        ensures
            packet.writable(),
            packet.bytes() == value@,
    {
        Packet { buffer: HybridVector::new_clone(value) }
    }

    /// A packet of `size` bytes, all zero but for the packet length, which
    /// matches the size.
    pub fn new_alloc(size: usize) -> (packet: Packet<'a>)
        requires
            PRIMARY_HEADER_BYTE_SIZE + 1 <= size <= PRIMARY_HEADER_BYTE_SIZE + 1 + 0xFFFF,
        ensures
            packet.writable(),
            packet.bytes() == with_packet_length(
                Seq::new(size as nat, |i: int| 0u8),
                expected_packet_length(size as nat) as nat,
            ),
    {
        let mut packet = Packet { buffer: HybridVector::new_alloc(size) };
        proof {
            lemma_two_pow_16();
        }
        let _ = packet.set_packet_length();
        packet
    }

    /// A packet that takes ownership of `value`.
    pub fn new_owner(value: Vec<u8>) -> (packet: Packet<'a>)
        ensures
            packet.writable(),
            packet.bytes() == value@,
    {
        Packet { buffer: HybridVector::new_owner(value) }
    }

    /// A read-only packet over the caller's bytes.
    pub fn new_read_only(reference: &'a [u8]) -> (packet: Packet<'a>)
        ensures
            !packet.writable(),
            packet.bytes() == reference@,
    {
        Packet { buffer: HybridVector::new_read_only(reference) }
    }

    /// A packet that reads and writes the caller's bytes.
    pub fn new_read_write(reference: &'a mut [u8]) -> (packet: Packet<'a>)
        ensures
            packet.writable(),
            packet.bytes() == old(reference)@,
            packet.inner() matches HybridVector::ReadWrite(r) && final(r)@ == final(reference)@,
    {
        Packet { buffer: HybridVector::new_read_write(reference) }
    }
}

// ---------------------------------------------------------------------------
// CANpacket
// ---------------------------------------------------------------------------

/// A CCSDS packet carried over a CAN bus.
pub struct CANpacket<'a> {
    buffer: HybridVector<'a>,
}

impl<'a> DUbuffer for CANpacket<'a> {
    closed spec fn bytes(&self) -> Seq<u8> {
        self.buffer.bytes()
    }

    closed spec fn writable(&self) -> bool {
        self.buffer.writable()
    }

    closed spec fn inner(&self) -> HybridVector<'_> {
        self.buffer
    }

    fn buffer_read_only(&self) -> (r: &[u8]) {
        self.buffer.read_only()
    }

    fn buffer_read_write(&mut self) -> (r: &mut [u8]) {
        self.buffer.read_write()
    }

    fn size(&self) -> (n: usize) {
        self.buffer.len()
    }

    fn at(&self, pos: usize) -> (b: u8) {
        self.buffer.at(pos)
    }

    fn set_at(&mut self, pos: usize, b: u8) {
        self.buffer.set_at(pos, b)
    }

    fn resize(&mut self, new_size: usize) {
        self.buffer.resize(new_size)
    }

    proof fn lemma_bytes_of_inner(&self) {
    }
}

impl<'a> DUintf for CANpacket<'a> {}

impl<'a> PacketIntf for CANpacket<'a> {}

impl<'a> CANpacket<'a> {
    /// Once the packet is done with (dropped, or never used again), a
    /// caller's slice that it borrows read-write holds its bytes.
    pub proof fn lemma_resolved_writes_through(self)
        requires
            has_resolved(self),
        ensures
            self.inner() matches HybridVector::ReadWrite(r) ==> final(r)@ == self.bytes(),
    {
        assert(has_resolved(self.buffer));
        self.buffer.lemma_resolved_writes_through();
    }

    /// A packet of the primary header and one data byte, all zero but for
    /// the packet length, which matches the size.
    pub fn new() -> (packet: CANpacket<'a>)
        ensures
            packet.writable(),
            packet.bytes() == Seq::new((PRIMARY_HEADER_BYTE_SIZE + 1) as nat, |i: int| 0u8),
    {
        let mut packet = CANpacket { buffer: HybridVector::new_alloc(PRIMARY_HEADER_BYTE_SIZE + 1) };
        let _ = packet.set_packet_length();
        proof {
            lemma_zero_packet_length(Seq::new((PRIMARY_HEADER_BYTE_SIZE + 1) as nat, |i: int| 0u8));
        }
        packet
    }

    /// A packet that holds a copy of `value`.
    pub fn new_clone(value: &Vec<u8>) -> (packet: CANpacket<'a>)
        ensures
            packet.writable(),
            packet.bytes() == value@,
    {
        CANpacket { buffer: HybridVector::new_clone(value) }
    }

    /// A packet of `size` bytes, all zero but for the packet length, which
    /// matches the size.
    pub fn new_alloc(size: usize) -> (packet: CANpacket<'a>)
        requires
            PRIMARY_HEADER_BYTE_SIZE + 1 <= size <= PRIMARY_HEADER_BYTE_SIZE + 1 + 0xFFFF,
        ensures
            packet.writable(),
            packet.bytes() == with_packet_length(
                Seq::new(size as nat, |i: int| 0u8),
                expected_packet_length(size as nat) as nat,
            ),
    {
        let mut packet = CANpacket { buffer: HybridVector::new_alloc(size) };
        proof {
            lemma_two_pow_16();
        }
        let _ = packet.set_packet_length();
        packet
    }

    /// A packet that takes ownership of `value`.
    pub fn new_owner(value: Vec<u8>) -> (packet: CANpacket<'a>)
        ensures
            packet.writable(),
            packet.bytes() == value@,
    {
        CANpacket { buffer: HybridVector::new_owner(value) }
    }

    /// A read-only packet over the caller's bytes.
    pub fn new_read_only(reference: &'a [u8]) -> (packet: CANpacket<'a>)
        ensures
            !packet.writable(),
            packet.bytes() == reference@,
    {
        CANpacket { buffer: HybridVector::new_read_only(reference) }
    }

    /// A packet that reads and writes the caller's bytes.
    pub fn new_read_write(reference: &'a mut [u8]) -> (packet: CANpacket<'a>)
        ensures
            packet.writable(),
            packet.bytes() == old(reference)@,
            packet.inner() matches HybridVector::ReadWrite(r) && final(r)@ == final(reference)@,
    {
        CANpacket { buffer: HybridVector::new_read_write(reference) }
    }
}

// ---------------------------------------------------------------------------
// TMpacket
// ---------------------------------------------------------------------------

/// A CCSDS telemetry packet.
pub struct TMpacket<'a> {
    buffer: HybridVector<'a>,
}

impl<'a> DUbuffer for TMpacket<'a> {
    closed spec fn bytes(&self) -> Seq<u8> {
        self.buffer.bytes()
    }

    closed spec fn writable(&self) -> bool {
        self.buffer.writable()
    }

    closed spec fn inner(&self) -> HybridVector<'_> {
        self.buffer
    }

    fn buffer_read_only(&self) -> (r: &[u8]) {
        self.buffer.read_only()
    }

    fn buffer_read_write(&mut self) -> (r: &mut [u8]) {
        self.buffer.read_write()
    }

    fn size(&self) -> (n: usize) {
        self.buffer.len()
    }

    fn at(&self, pos: usize) -> (b: u8) {
        self.buffer.at(pos)
    }

    fn set_at(&mut self, pos: usize, b: u8) {
        self.buffer.set_at(pos, b)
    }

    fn resize(&mut self, new_size: usize) {
        self.buffer.resize(new_size)
    }

    proof fn lemma_bytes_of_inner(&self) {
    }
}

impl<'a> DUintf for TMpacket<'a> {}

impl<'a> PacketIntf for TMpacket<'a> {}

impl<'a> TMpacket<'a> {
    /// Once the packet is done with (dropped, or never used again), a
    /// caller's slice that it borrows read-write holds its bytes.
    pub proof fn lemma_resolved_writes_through(self)
        requires
            has_resolved(self),
        ensures
            self.inner() matches HybridVector::ReadWrite(r) ==> final(r)@ == self.bytes(),
    {
        assert(has_resolved(self.buffer));
        self.buffer.lemma_resolved_writes_through();
    }

    /// A packet of the primary header and one data byte, all zero but for
    /// the packet length, which matches the size.
    pub fn new() -> (packet: TMpacket<'a>)
        ensures
            packet.writable(),
            packet.bytes() == Seq::new((PRIMARY_HEADER_BYTE_SIZE + 1) as nat, |i: int| 0u8),
    {
        let mut packet = TMpacket { buffer: HybridVector::new_alloc(PRIMARY_HEADER_BYTE_SIZE + 1) };
        let _ = packet.set_packet_length();
        proof {
            lemma_zero_packet_length(Seq::new((PRIMARY_HEADER_BYTE_SIZE + 1) as nat, |i: int| 0u8));
        }
        packet
    }

    /// A packet that holds a copy of `value`.
    pub fn new_clone(value: &Vec<u8>) -> (packet: TMpacket<'a>)
        ensures
            packet.writable(),
            packet.bytes() == value@,
    {
        TMpacket { buffer: HybridVector::new_clone(value) }
    }

    /// A packet of `size` bytes, all zero but for the packet length, which
    /// matches the size.
    pub fn new_alloc(size: usize) -> (packet: TMpacket<'a>)
        requires
            PRIMARY_HEADER_BYTE_SIZE + 1 <= size <= PRIMARY_HEADER_BYTE_SIZE + 1 + 0xFFFF,
        ensures
            packet.writable(),
            packet.bytes() == with_packet_length(
                Seq::new(size as nat, |i: int| 0u8),
                expected_packet_length(size as nat) as nat,
            ),
    {
        let mut packet = TMpacket { buffer: HybridVector::new_alloc(size) };
        proof {
            lemma_two_pow_16();
        }
        let _ = packet.set_packet_length();
        packet
    }

    /// A packet that takes ownership of `value`.
    pub fn new_owner(value: Vec<u8>) -> (packet: TMpacket<'a>)
        ensures
            packet.writable(),
            packet.bytes() == value@,
    {
        TMpacket { buffer: HybridVector::new_owner(value) }
    }

    /// A read-only packet over the caller's bytes.
    pub fn new_read_only(reference: &'a [u8]) -> (packet: TMpacket<'a>)
        ensures
            !packet.writable(),
            packet.bytes() == reference@,
    {
        TMpacket { buffer: HybridVector::new_read_only(reference) }
    }

    /// A packet that reads and writes the caller's bytes.
    pub fn new_read_write(reference: &'a mut [u8]) -> (packet: TMpacket<'a>)
        ensures
            packet.writable(),
            packet.bytes() == old(reference)@,
            packet.inner() matches HybridVector::ReadWrite(r) && final(r)@ == final(reference)@,
    {
        TMpacket { buffer: HybridVector::new_read_write(reference) }
    }
}

// ---------------------------------------------------------------------------
// TCpacket
// ---------------------------------------------------------------------------

/// A CCSDS telecommand packet.
pub struct TCpacket<'a> {
    buffer: HybridVector<'a>,
}

impl<'a> DUbuffer for TCpacket<'a> {
    closed spec fn bytes(&self) -> Seq<u8> {
        self.buffer.bytes()
    }

    closed spec fn writable(&self) -> bool {
        self.buffer.writable()
    }

    closed spec fn inner(&self) -> HybridVector<'_> {
        self.buffer
    }

    fn buffer_read_only(&self) -> (r: &[u8]) {
        self.buffer.read_only()
    }

    fn buffer_read_write(&mut self) -> (r: &mut [u8]) {
        self.buffer.read_write()
    }

    fn size(&self) -> (n: usize) {
        self.buffer.len()
    }

    fn at(&self, pos: usize) -> (b: u8) {
        self.buffer.at(pos)
    }

    fn set_at(&mut self, pos: usize, b: u8) {
        self.buffer.set_at(pos, b)
    }

    fn resize(&mut self, new_size: usize) {
        self.buffer.resize(new_size)
    }

    proof fn lemma_bytes_of_inner(&self) {
    }
}

impl<'a> DUintf for TCpacket<'a> {}

impl<'a> PacketIntf for TCpacket<'a> {}

impl<'a> TCpacket<'a> {
    /// Once the packet is done with (dropped, or never used again), a
    /// caller's slice that it borrows read-write holds its bytes.
    pub proof fn lemma_resolved_writes_through(self)
        requires
            has_resolved(self),
        ensures
            self.inner() matches HybridVector::ReadWrite(r) ==> final(r)@ == self.bytes(),
    {
        assert(has_resolved(self.buffer));
        self.buffer.lemma_resolved_writes_through();
    }

    /// A packet of the primary header and one data byte, all zero but for
    /// the packet length, which matches the size.
    pub fn new() -> (packet: TCpacket<'a>)
        ensures
            packet.writable(),
            packet.bytes() == Seq::new((PRIMARY_HEADER_BYTE_SIZE + 1) as nat, |i: int| 0u8),
    {
        let mut packet = TCpacket { buffer: HybridVector::new_alloc(PRIMARY_HEADER_BYTE_SIZE + 1) };
        let _ = packet.set_packet_length();
        proof {
            lemma_zero_packet_length(Seq::new((PRIMARY_HEADER_BYTE_SIZE + 1) as nat, |i: int| 0u8));
        }
        packet
    }

    /// A packet that holds a copy of `value`.
    pub fn new_clone(value: &Vec<u8>) -> (packet: TCpacket<'a>)
        ensures
            packet.writable(),
            packet.bytes() == value@,
    {
        TCpacket { buffer: HybridVector::new_clone(value) }
    }

    /// A packet of `size` bytes, all zero but for the packet length, which
    /// matches the size.
    pub fn new_alloc(size: usize) -> (packet: TCpacket<'a>)
        requires
            PRIMARY_HEADER_BYTE_SIZE + 1 <= size <= PRIMARY_HEADER_BYTE_SIZE + 1 + 0xFFFF,
        ensures
            packet.writable(),
            packet.bytes() == with_packet_length(
                Seq::new(size as nat, |i: int| 0u8),
                expected_packet_length(size as nat) as nat,
            ),
    {
        let mut packet = TCpacket { buffer: HybridVector::new_alloc(size) };
        proof {
            lemma_two_pow_16();
        }
        let _ = packet.set_packet_length();
        packet
    }

    /// A packet that takes ownership of `value`.
    pub fn new_owner(value: Vec<u8>) -> (packet: TCpacket<'a>)
        ensures
            packet.writable(),
            packet.bytes() == value@,
    {
        TCpacket { buffer: HybridVector::new_owner(value) }
    }

    /// A read-only packet over the caller's bytes.
    pub fn new_read_only(reference: &'a [u8]) -> (packet: TCpacket<'a>)
        ensures
            !packet.writable(),
            packet.bytes() == reference@,
    {
        TCpacket { buffer: HybridVector::new_read_only(reference) }
    }

    /// A packet that reads and writes the caller's bytes.
    pub fn new_read_write(reference: &'a mut [u8]) -> (packet: TCpacket<'a>)
        ensures
            packet.writable(),
            packet.bytes() == old(reference)@,
            packet.inner() matches HybridVector::ReadWrite(r) && final(r)@ == final(reference)@,
    {
        TCpacket { buffer: HybridVector::new_read_write(reference) }
    }
}

} // verus!
