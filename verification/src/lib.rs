//! Host side of the rtxlink serial protocol stack for OpenRTX radios.
//!
//! The crate holds the byte-exact rules of the stack and no I/O: SLIP
//! framing, the link layer with its protocol identifier and CRC16 trailer,
//! and the CAT, FMP and DAT channels that run on top of it. A caller owns the
//! serial port, writes the bytes that these functions hand out and feeds back
//! the bytes that it reads.

pub mod cat;
pub mod dat;
pub mod decimal;
pub mod endian;
pub mod error;
pub mod flow;
pub mod fmp;
pub mod link;
pub mod slip;
