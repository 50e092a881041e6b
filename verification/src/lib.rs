//! A node of a Chord ring: key space arithmetic, the node's own state, the
//! finger table and the rules that decide how requests are routed, stored
//! and how the ring is repaired when nodes join and leave.
#![allow(non_camel_case_types)]

pub mod keyspace;
pub mod digest;
pub mod text;
pub mod node;
pub mod ring;
pub mod laws;
