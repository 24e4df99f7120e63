//! Execution core of a small replicated state machine: an authenticated
//! key-value trie over a content-addressed node store, an executor for
//! transfers and contract transactions, and a wasm host for contract code.

pub mod block;
pub mod bytes;
pub mod codec;
pub mod contract;
pub mod decode;
pub mod error;
pub mod executor;
pub mod guest;
pub mod hash;
pub mod keys;
pub mod laws;
pub mod merkle;
pub mod sandbox;
pub mod store;
pub mod uint;
pub mod vm;
pub mod wire;

pub use block::{get_block_by_hash, Block, BlockOracle, MockBlockOracle, Tx};
pub use contract::ContractState;
pub use error::ExecError;
pub use executor::{
    create_account, create_initial_state, execute, execute_block, execute_txs, GlobalState,
};
pub use hash::{Bytes32, H256};
pub use keys::keyhash_with_prefix;
pub use store::{apply_changes, Change, StateTrie};
pub use uint::U256;
pub use vm::{Ext, TestExt};
