//! Codec for the RFtap header: a magic word, a header length, a flag word that
//! selects which telemetry fields follow, optional tags, and the captured
//! payload.
//!
//! Floating-point fields are carried as their IEEE-754 bit patterns, exactly
//! as they travel on the wire.

pub mod le;
pub mod flags;
pub mod packet;
pub mod format;
pub mod deserialize;
pub mod serialize;
pub mod layout;
pub mod laws;

pub use packet::{DecodeError, EncodeError, RFTapPacket, Tag};
