pub mod c_packet;
