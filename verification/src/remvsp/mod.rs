//! RemVSP: fragmentation and reassembly of encoded frames over an
//! unreliable datagram transport.
//!
//! A frame is cut into fixed-size fragments, each of which travels in one
//! datagram ([`wire`]). The receiving side collects fragments per frame
//! ([`reconstruct`]), rejects stale frames against a monotonic watermark and
//! reassembles complete ones ([`receive`]); the sending side cuts frames and
//! numbers them ([`send`]).

pub mod receive;
pub mod send;
pub mod reconstruct;
pub mod wire;
