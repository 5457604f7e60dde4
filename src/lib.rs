//! A PRUDP transport engine: packet framing and signatures, the per-peer
//! connection state machine with its reliable-delivery reorder buffer, and the
//! virtual-port registry that shares one UDP socket among many services.

pub mod bytes;
pub mod packet;
pub mod signature;
pub mod reorder;
pub mod connection;
pub mod socket;
pub mod router;
pub mod rmc;
