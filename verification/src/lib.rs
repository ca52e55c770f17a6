//! Bridge core for a mesh of serial-attached devices speaking the PFP
//! fixed-width binary protocol.
//!
//! The crate holds the protocol logic only: the command vocabulary, the frame
//! codec, delimiter-based frame extraction, the device liveness registry and
//! the decisions of the relay loop. Transports, timers and the message bus are
//! driven by the caller, which hands this crate plain bytes and timestamps.

pub mod logger;
pub mod protocol;
pub mod protocol_parser;
pub mod read_until;
pub mod registry;
pub mod relay;
pub mod sink;
