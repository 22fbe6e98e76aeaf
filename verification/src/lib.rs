//! A firmware flashing protocol for PIC microcontrollers behind an
//! Arduino-based programmer, spoken over a byte-oriented serial link.
//!
//! The heart of the crate is a verified protocol engine
//! ([`engine::SerialProgrammer`]) that sequences a ready handshake, streams
//! firmware records one at a time with per-record acknowledgment and resend
//! handling, detects the end-of-file record, and confirms completion.  The
//! engine is generic over byte-channel capabilities so that it can run
//! against a real serial port or against scripted data.

pub mod channel;
pub mod cli;
pub mod engine;
pub mod laws;
pub mod model;
pub mod records;
pub mod search;
pub mod sentinels;
pub mod serial;
