//! Peer discovery for a peer-to-peer network: a Kademlia-style routing table over an
//! XOR-hash distance, and the signed Ping/Pong wire protocol that keeps it alive.
#![allow(non_snake_case)]

pub mod networking;
