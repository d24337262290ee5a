//! Read-only decoding of the chunk log and the index file of a time-series
//! storage block.
//!
//! Every function of this crate is verified: the contracts are stated over
//! byte sequences (`Seq<u8>`) and mathematical integers, and the executable
//! code is proved to meet them without panicking or overflowing.

pub mod checksum;
pub mod chunks;
pub mod common;
pub mod index;
pub mod series;
pub mod symbols;
