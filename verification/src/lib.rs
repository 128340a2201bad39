//! Client-side core of the MELSEC MC protocol in its 3E binary frame format:
//! device-address resolution, request-frame construction, command-body
//! encoding and response decoding for block reads and writes of bits and
//! words. The transport that carries the frames lives outside this crate.
pub mod codec;
pub mod mc_protocol;
pub mod qseries;
