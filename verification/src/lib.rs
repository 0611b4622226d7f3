//! Verified core of a USB phone-mirroring tool: the client's H.264 stream
//! handling and window decisions, and the on-phone input server's virtual
//! touchscreen and line protocol.
pub mod annexb;
pub mod frame;
pub mod decode;
pub mod mirror;
pub mod touch;
pub mod protocol;
