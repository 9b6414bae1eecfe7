//! CCSDS space packets over byte buffers: bit and byte field access,
//! the primary header, the packet length and the CRC checksum, and the
//! splitting of a packet into CAN frames.

pub mod ccsds;
pub mod rx_tx;
pub mod util;
