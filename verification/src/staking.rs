//! Staking bookkeeping. Staking and slashing are reporting stubs outside
//! this core; only the balance query is kept here.

use vstd::prelude::*;

verus! {

/// The balance the placeholder bookkeeping reports for every node.
pub const DEFAULT_STAKE_BALANCE: u64 = 1000;

/// The staking boundary of the node.
pub struct StakingManager {}

impl StakingManager {
    /// Create a staking manager.
    pub fn new() -> (r: StakingManager)
        ensures
            r == (StakingManager {  }),
    {
        StakingManager {  }
    }

    /// Placeholder bookkeeping: every node reports the fixed stake balance.
    pub fn check_staking_balance(&self, node_id: String) -> (r: u64)
        ensures
            r == DEFAULT_STAKE_BALANCE,
    {
        let _ = node_id;
        DEFAULT_STAKE_BALANCE
    }
}

} // verus!
