//! The networking layer. Only its discovery stack is modelled here.
use vstd::prelude::*;

pub mod bootnode;
pub mod discovery;

verus! {

/// Handle for the networking stacks of a node: the discovery stack, which finds and keeps
/// alive a set of peers, and the session stack that takes over once a peer is known.
pub struct NetworkingStack {}

} // verus!
