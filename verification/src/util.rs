pub mod crc;
pub mod du;
pub mod exception;
