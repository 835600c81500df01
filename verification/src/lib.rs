//! A small proof-of-work ledger: transactions signed with Ed25519, blocks
//! hashed with SHA-256, and a chain that tracks balances and a mempool.
//! Amounts are counted in hundredths of a coin.

pub mod address_map;
pub mod block;
pub mod blockchain;
pub mod diagram;
pub mod merkle;
pub mod mining;
pub mod primitives;
pub mod report;
pub mod text;
pub mod transaction;
pub mod wallet;

pub use address_map::AddressMap;
pub use block::Block;
pub use block::MINING_REWARD;
pub use blockchain::Blockchain;
pub use blockchain::ChainFault;
pub use mining::meets_difficulty;
pub use mining::mine_block;
pub use mining::target_prefix;
pub use mining::DIFFICULTY;
pub use transaction::Transaction;
pub use wallet::Wallet;
