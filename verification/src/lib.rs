//! A SOCKS5-forwarding tunnel library: the client side of the SOCKS5
//! protocol (method negotiation, username/password sub-negotiation, the
//! address wire codec and reply parsing) together with the lifecycle model
//! of the forwarding server that relays accepted connections through an
//! upstream proxy.
//!
//! Everything here works on plain values — byte buffers, strings, and the
//! library's own address types. The sockets, the async runtime and the
//! accept loop live in the surrounding application, which feeds bytes in
//! and writes the produced packets out.

pub mod auth;
pub mod server;
pub mod socks5;
pub mod target_addr;
pub mod wire;
