use vstd::prelude::*;

use crate::util::du::{BitAccessor, UnsignedAccessor};

verus! {

/// First bit of the packet version number.
pub const VERSION_NUMBER_BIT_POS: usize = 0;
/// Number of bits of the packet version number.
pub const VERSION_NUMBER_BIT_LENGTH: usize = 3;
/// First bit of the packet type (telemetry or telecommand).
pub const PACKET_TYPE_BIT_POS: usize = 3;
/// Number of bits of the packet type.
pub const PACKET_TYPE_BIT_LENGTH: usize = 1;
/// First bit of the data field header flag.
pub const DATA_FIELD_HEADER_FLAG_BIT_POS: usize = 4;
/// Number of bits of the data field header flag.
pub const DATA_FIELD_HEADER_FLAG_BIT_LENGTH: usize = 1;
/// First bit of the application process identifier.
pub const APPLICATION_PROCESS_ID_BIT_POS: usize = 5;
/// Number of bits of the application process identifier.
pub const APPLICATION_PROCESS_ID_BIT_LENGTH: usize = 11;
/// First bit of the segmentation flags (byte 2).
pub const SEGMENTATION_FLAGS_BIT_POS: usize = 16;
/// Number of bits of the segmentation flags.
pub const SEGMENTATION_FLAGS_BIT_LENGTH: usize = 2;
/// First bit of the sequence control count.
pub const SEQUENCE_CONTROL_COUNT_BIT_POS: usize = 18;
/// Number of bits of the sequence control count.
pub const SEQUENCE_CONTROL_COUNT_BIT_LENGTH: usize = 14;
/// First byte of the packet length.
pub const PACKET_LENGTH_BYTE_POS: usize = 4;
/// Number of bytes of the packet length.
pub const PACKET_LENGTH_BYTE_LENGTH: usize = 2;

/// The packet version number field.
pub fn version_number() -> (acc: BitAccessor)
    ensures
        acc.bit_pos == VERSION_NUMBER_BIT_POS,
        acc.bit_length == VERSION_NUMBER_BIT_LENGTH,
{
    BitAccessor { bit_pos: VERSION_NUMBER_BIT_POS, bit_length: VERSION_NUMBER_BIT_LENGTH }
}

/// The packet type field.
pub fn packet_type() -> (acc: BitAccessor)
    ensures
        acc.bit_pos == PACKET_TYPE_BIT_POS,
        acc.bit_length == PACKET_TYPE_BIT_LENGTH,
{
    BitAccessor { bit_pos: PACKET_TYPE_BIT_POS, bit_length: PACKET_TYPE_BIT_LENGTH }
}

/// The data field header flag field.
pub fn data_field_header_flag() -> (acc: BitAccessor)
    ensures
        acc.bit_pos == DATA_FIELD_HEADER_FLAG_BIT_POS,
        acc.bit_length == DATA_FIELD_HEADER_FLAG_BIT_LENGTH,
{
    BitAccessor {
        bit_pos: DATA_FIELD_HEADER_FLAG_BIT_POS,
        bit_length: DATA_FIELD_HEADER_FLAG_BIT_LENGTH,
    }
}

/// The application process identifier field.
pub fn application_process_id() -> (acc: BitAccessor)
    ensures
        acc.bit_pos == APPLICATION_PROCESS_ID_BIT_POS,
        acc.bit_length == APPLICATION_PROCESS_ID_BIT_LENGTH,
{
    BitAccessor {
        bit_pos: APPLICATION_PROCESS_ID_BIT_POS,
        bit_length: APPLICATION_PROCESS_ID_BIT_LENGTH,
    }
}

/// The segmentation flags field.
pub fn segmentation_flags() -> (acc: BitAccessor)
    ensures
        acc.bit_pos == SEGMENTATION_FLAGS_BIT_POS,
        acc.bit_length == SEGMENTATION_FLAGS_BIT_LENGTH,
{
    BitAccessor { bit_pos: SEGMENTATION_FLAGS_BIT_POS, bit_length: SEGMENTATION_FLAGS_BIT_LENGTH }
}

/// The sequence control count field.
pub fn sequence_control_count() -> (acc: BitAccessor)
    ensures
        acc.bit_pos == SEQUENCE_CONTROL_COUNT_BIT_POS,
        acc.bit_length == SEQUENCE_CONTROL_COUNT_BIT_LENGTH,
{
    BitAccessor {
        bit_pos: SEQUENCE_CONTROL_COUNT_BIT_POS,
        bit_length: SEQUENCE_CONTROL_COUNT_BIT_LENGTH,
    }
}

/// The packet length field.
pub fn packet_length() -> (acc: UnsignedAccessor)
    ensures
        acc.byte_pos == PACKET_LENGTH_BYTE_POS,
        acc.byte_length == PACKET_LENGTH_BYTE_LENGTH,
{
    UnsignedAccessor { byte_pos: PACKET_LENGTH_BYTE_POS, byte_length: PACKET_LENGTH_BYTE_LENGTH }
}

} // verus!
