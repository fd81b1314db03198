//! Simulation core of a top-down arena game server: the command protocol
//! between the physics actor and the network actor, the decisions each actor
//! takes on a command, and the per-client delta cache of broadcast positions.
use vstd::prelude::*;

pub mod table;
pub mod geometry;
pub mod command;
pub mod physics;
pub mod cache;
pub mod message;
pub mod network;

verus! {

} // verus!
