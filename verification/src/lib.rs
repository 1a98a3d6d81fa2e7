//! Producer-side core of a market-data transport: an SBE-style little-endian
//! codec, single-producer ring buffer writers (a raw cursor-only variant and
//! a framed variant whose slots carry sequence numbers), the datagram
//! filtering that feeds the framed ring, and streaming indicator engines
//! (VPIN, order-flow imbalance, Hawkes intensity) over exact integer
//! arithmetic.

pub mod framed;
pub mod hawkes;
pub mod ingest;
pub mod ofi;
pub mod ring;
pub mod vpin;
pub mod sbe;
