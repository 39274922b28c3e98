//! Reward computation for data contributors: a pure function over
//! contribution records, one reward per record.

use vstd::prelude::*;

verus! {

/// The fixed reward every contributed record earns under the placeholder
/// policy.
pub const REWARD_PER_ENTRY: u64 = 100;

/// A contributed data record.
#[derive(Clone, Debug)]
pub struct Data {
    /// Who contributed the record.
    pub contributor_id: String,
}

/// A reward owed to a contributor.
#[derive(Clone, Debug)]
pub struct Reward {
    /// Who the reward is owed to.
    pub contributor_id: String,
    /// The amount owed.
    pub amount: u64,
}

/// The amount a single record earns: the fixed per-entry reward.
pub open spec fn spec_reward_amount(d: Data) -> u64 {
    REWARD_PER_ENTRY
}

/// The amount a single record earns.
pub fn calculate_reward_amount(data_entry: &Data) -> (r: u64)
    ensures
        r == spec_reward_amount(*data_entry),
{
    REWARD_PER_ENTRY
}

/// The reward policy over a batch of contribution records.
pub struct RewardCalculator {}

impl RewardCalculator {
    /// Create a reward calculator.
    pub fn new() -> (r: RewardCalculator)
        ensures
            r == (RewardCalculator {  }),
    {
        RewardCalculator {  }
    }

    /// One reward per contributed record, in order: addressed to the record's
    /// contributor, for the amount the record earns.
    pub fn calculate_rewards(&self, data: Vec<Data>) -> (r: Vec<Reward>)
        ensures
            r@.len() == data@.len(),
            forall|i: int| #![trigger r@[i]]
                0 <= i < data@.len() ==> r@[i].contributor_id@ == data@[i].contributor_id@
                    && r@[i].amount == spec_reward_amount(data@[i]),
    {
        let mut rewards: Vec<Reward> = Vec::new();
        let mut i: usize = 0;
        while i < data.len()
            invariant
                i <= data@.len(),
                rewards@.len() == i,
                forall|j: int| #![trigger rewards@[j]]
                    0 <= j < i ==> rewards@[j].contributor_id@ == data@[j].contributor_id@
                        && rewards@[j].amount == spec_reward_amount(data@[j]),
            decreases data@.len() - i,
        {
            let amount = calculate_reward_amount(&data[i]);
            let reward = Reward { contributor_id: data[i].contributor_id.clone(), amount };
            rewards.push(reward);
            i = i + 1;
        }
        rewards
    }
}

} // verus!
