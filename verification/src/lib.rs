//! Wire encoding of QUIC-like protocol packets.
//!
//! The heart of the crate is [`packet::PacketBuilder`], an incremental
//! assembler for short- and long-header packets: it lays the header bytes into
//! a reusable buffer, fixes the packet number, back-patches the reserved
//! length field, and applies payload encryption and header protection through
//! a caller-supplied provider.  Retry and Version Negotiation packets are
//! built by one-shot constructors.  Every byte written is pinned down by the
//! contracts in terms of the sequence specifications in [`encoder`].

pub mod cid;
pub mod crypto;
pub mod encoder;
pub mod packet;

pub use cid::ConnectionId;
pub use crypto::CryptoDx;
pub use crypto::Error;
pub use encoder::Encoder;
pub use packet::PacketBuilder;
pub use packet::PacketNumber;
pub use packet::PacketType;
