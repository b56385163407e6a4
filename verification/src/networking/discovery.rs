//! The discovery stack: identities, the distance metric, the routing table and the wire
//! protocol.
pub mod distance;
pub mod endpoint;
pub mod identity;
pub mod kademlia;
pub mod node;
pub mod packet;
pub mod protocol;
pub mod rlp;
pub mod text;
