//! The ledger's data: transactions, blocks and blocks awaiting proof of work.
use vstd::prelude::*;

verus! {

/// A 32-byte digest naming a block; all zeros names the root before the first block.
pub type BlockHash = [u8; 32];

/// A node's or an account holder's public identity.
pub type PublicKey = [u8; 128];

/// A signature over a transaction's details.
pub type Signature = [u8; 128];

/// The root hash, as bytes: the link of the first block of a chain.
pub open spec fn root() -> Seq<u8> {
    Seq::new(32, |i: int| 0u8)
}

/// A transfer of `amount` coins from one identity to another.
#[derive(Debug, Clone, Copy)]
pub struct TransactionDetails {
    pub source_public_key: PublicKey,
    pub destination_public_key: PublicKey,
    pub amount: u64,
}

/// Transaction details together with the source's signature over them.
#[derive(Debug, Clone, Copy)]
pub struct Transaction {
    pub details: TransactionDetails,
    pub source_signature: Signature,
}

/// One transaction, linked to the block before it. The miner named by
/// `node_public_key` is credited one coin.
#[derive(Debug, Clone, Copy)]
pub struct Block {
    /// Seconds since the Unix epoch.
    pub time: u64,
    pub node_public_key: PublicKey,
    pub previous_hash: BlockHash,
    /// Varied until the block's hash is small enough.
    pub nonce: [u8; 32],
    pub transaction: Transaction,
}

/// A transaction waiting to be mined, with the nonce to try next.
#[derive(Debug, Clone, Copy)]
pub struct ProtoBlock {
    pub nonce: [u8; 32],
    pub transaction: Transaction,
}

impl TransactionDetails {
    pub open spec fn is_self_transfer(self) -> bool {
        self.source_public_key == self.destination_public_key
    }

    pub fn new(source: PublicKey, destination: PublicKey, amount: u64) -> (r: TransactionDetails)
        ensures
            r.source_public_key == source,
            r.destination_public_key == destination,
            r.amount == amount,
    {
        TransactionDetails { source_public_key: source, destination_public_key: destination, amount }
    }
}

impl Transaction {
    pub fn new(details: TransactionDetails, signature: Signature) -> (r: Transaction)
        ensures
            r.details == details,
            r.source_signature == signature,
    {
        Transaction { details, source_signature: signature }
    }
}

impl Block {
    pub fn new(
        time: u64,
        node_public_key: PublicKey,
        previous_hash: BlockHash,
        nonce: [u8; 32],
        transaction: Transaction,
    ) -> (r: Block)
        ensures
            r == (Block { time, node_public_key, previous_hash, nonce, transaction }),
    {
        Block { time, node_public_key, previous_hash, nonce, transaction }
    }
}

/// Signs transaction details. Signatures are not checked anywhere yet, and
/// this signer gives the all-zero signature.
pub fn sign(details: &TransactionDetails) -> (r: Signature)
    ensures
        r@ == Seq::new(128, |i: int| 0u8),
{
    let r: Signature = [0u8; 128];
    assert(r@ =~= Seq::new(128, |i: int| 0u8));
    r
}

/// The node's own identity. No key store is read yet: the identity is all zeros.
pub fn read_public_key_from_disk() -> (r: PublicKey)
    ensures
        r@ == Seq::new(128, |i: int| 0u8),
{
    let r: PublicKey = [0u8; 128];
    assert(r@ =~= Seq::new(128, |i: int| 0u8));
    r
}

/// A freshly received transaction, ready for its first mining attempt with nonce zero.
pub fn transaction_to_proto_block(transaction: Transaction) -> (r: ProtoBlock)
    ensures
        r.transaction == transaction,
        r.nonce@ == Seq::new(32, |i: int| 0u8),
{
    let r = ProtoBlock { nonce: [0u8; 32], transaction };
    assert(r.nonce@ =~= Seq::new(32, |i: int| 0u8));
    r
}

} // verus!
