//! Single-node ledger core: an append-only, hash-linked chain of blocks,
//! a validated transaction intake queue, and a block-production step that
//! drains the queue, builds a candidate block against the current tip, and
//! commits it atomically.

pub mod blockchain;
pub mod consensus;
pub mod data;
pub mod network;
pub mod rewards;
pub mod staking;
pub mod txhandler;

pub use blockchain::Block;
pub use blockchain::Blockchain;
pub use blockchain::ChainError;
pub use consensus::Consensus;
pub use data::DataStorage;
pub use network::NetworkManager;
pub use rewards::RewardCalculator;
pub use staking::StakingManager;
pub use txhandler::Transaction;
pub use txhandler::TransactionError;
pub use txhandler::TransactionHandler;
