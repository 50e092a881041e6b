//! The identifier ring: keys and node ids live in `0 .. CLUSTER_SIZE`.
use vstd::prelude::*;

verus! {

/// Number of bits of a key; also the number of fingers of a node.
pub const KEY_SIZE: u32 = 20;

/// Number of keys on the ring, `2^KEY_SIZE`.
pub const CLUSTER_SIZE: u32 = 1048576;

/// `CLUSTER_SIZE` as a mathematical integer.
pub open spec fn ring_size() -> int {
    1048576
}

} // verus!
