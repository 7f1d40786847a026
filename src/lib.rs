//! Decoder for ZDMP containers: a crash-dump image cut into fixed-size
//! blocks, each checksummed with CRC-32 and optionally LZNT1-compressed.

pub mod codec;
pub mod hexdump;
pub mod logger;
pub mod lznt1;
pub mod result;
pub mod zdmp;
