//! The identify exchange of a peer-to-peer stack: after a connection is
//! negotiated, the initiator receives the responder's identity record in a
//! single length-prefixed frame, while the responder hands back a one-shot
//! capability for producing that frame.

pub mod addr;
pub mod codec;
pub mod frame;
pub mod protocol;
pub mod varint;
pub mod wire;

pub use addr::Addr;
pub use codec::IdentifyError;
pub use codec::IdentifyInfo;
pub use protocol::Endpoint;
pub use protocol::IdentifyOutput;
pub use protocol::IdentifyProtocolConfig;
pub use protocol::IdentifySender;
pub use protocol::InitiatorFlow;
pub use protocol::Upgrade;
