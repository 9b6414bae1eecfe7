# spacerust

CCSDS space packets over byte buffers, verified with Verus.

- `src/util/du.rs`: the data unit model (a byte sequence read bit by bit,
  most significant bit first), the `HybridVector` buffer (owned, borrowed
  read-only or borrowed read-write), and the `DUbuffer`/`DUintf` traits with
  bit field and big-endian unsigned integer accessors, with their laws.
- `src/util/crc.rs`: the CCSDS CRC-16 (CRC-16-CCITT, seed 0xFFFF).
- `src/util/exception.rs`: the errors.
- `src/ccsds/c_packet.rs`: packet constants, the primary header fields
  (`c_packet/primary_header.rs`), the `PacketIntf` trait (header fields,
  CUC time fields, packet length, checksum) and the packet types `Packet`,
  `CANpacket`, `TMpacket` and `TCpacket`, with their laws.
- `src/rx_tx/can_rx_tx.rs`: cutting a packet into CAN frames of at most
  8 data bytes and putting it together again.
- `app/lib.rs`: sending and receiving packets over SocketCAN.
