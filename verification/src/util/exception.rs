use vstd::prelude::*;

verus! {

/// The errors that data unit and packet operations report.
#[derive(Debug, Clone, Copy, PartialEq, Eq, Structural)]
pub enum Exception {
    /// A bit or byte field that is wider than 32 bits.
    FieldTooWide,
    /// A bit or byte field that does not lie inside the buffer.
    FieldOutOfBuffer,
    /// A value that does not fit into the bits of its field.
    ValueOutOfRange,
    /// A CUC time field that does not lie inside the buffer.
    CucTimeOutOfBuffer,
    /// The buffer does not hold the expected CUC p-field.
    UnexpectedPField,
    /// The buffer is too small to hold a packet.
    PacketTooSmall,
    /// The buffer is too large for its size to be stated in 32 bits.
    PacketTooLarge,
    /// The packet length field does not match the buffer size.
    InconsistentPacketLength,
}

} // verus!
