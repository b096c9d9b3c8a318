//! Identity-bound certificates and per-stream wake bookkeeping for a QUIC
//! transport of a peer-to-peer stack.
pub mod certificate;
pub mod der;
pub mod stream;
pub mod streams;
