//! A small proof-of-work ledger: hash-linked single-transaction blocks,
//! balances derived from chain history, and the rules for admitting blocks.
pub mod bytes;
pub mod hashing;
pub mod types;
pub mod ledger;
pub mod work;
pub mod node;

pub use hashing::hash_block;
pub use ledger::{amount, history, valid_block, ChainError, ChainStore, MAX_BLOCKS};
pub use node::{
    block_created, block_generator_step, block_received, link_block, proof_of_work, Ingestion,
    Node,
};
pub use types::{
    read_public_key_from_disk, sign, transaction_to_proto_block, Block, BlockHash, ProtoBlock,
    PublicKey, Signature, Transaction, TransactionDetails,
};
pub use work::{attempt, meets_difficulty, next_nonce};
