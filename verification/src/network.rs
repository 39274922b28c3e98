//! The intake side of the peer interface. Broadcasting and peer connection
//! are I/O and live outside this core; only the placeholder frame intake is
//! kept here.

use vstd::prelude::*;

verus! {

/// Length of the placeholder frame the intake reports.
pub const PLACEHOLDER_FRAME_LEN: usize = 10;

/// The network boundary of the node.
pub struct NetworkManager {}

impl NetworkManager {
    /// Create a network manager.
    pub fn new() -> (r: NetworkManager)
        ensures
            r == (NetworkManager {  }),
    {
        NetworkManager {  }
    }

    /// Placeholder intake: stands in for data arriving from peers by
    /// reporting a fixed all-zero frame.
    pub fn receive_data(&self) -> (r: Vec<u8>)
        ensures
            r@ == Seq::new(PLACEHOLDER_FRAME_LEN as nat, |i: int| 0u8),
    {
        let mut out: Vec<u8> = Vec::new();
        let mut i: usize = 0;
        while i < PLACEHOLDER_FRAME_LEN
            invariant
                i <= PLACEHOLDER_FRAME_LEN,
                out@ =~= Seq::new(i as nat, |j: int| 0u8),
            decreases PLACEHOLDER_FRAME_LEN - i,
        {
            out.push(0);
            i = i + 1;
        }
        proof {
            assert(out@ =~= Seq::new(PLACEHOLDER_FRAME_LEN as nat, |i: int| 0u8));
        }
        out
    }
}

} // verus!
