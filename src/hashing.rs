//! The bytes a block is hashed over, and its hash.
use crate::bytes::{append_bytes, append_u64_le, fit32, le_bytes, to_32bytes};
use crate::types::{Block, BlockHash};
use sha2::Digest;
use vstd::prelude::*;

verus! {

/// The SHA-256 digest of a byte string.
pub uninterp spec fn sha256_of(data: Seq<u8>) -> Seq<u8>;

/// Relies on sha2's `Sha256::digest`: the SHA-256 digest of `data`, whose
/// output size is 32 bytes.
#[verifier::external_body]
fn sha256(data: &Vec<u8>) -> (r: Vec<u8>)
    ensures
        r@ == sha256_of(data@),
        r@.len() == 32,
{
    sha2::Sha256::digest(data).to_vec()
}

/// The fields of a block in hashing order, integers little-endian.
pub open spec fn block_bytes(b: Block) -> Seq<u8> {
    le_bytes(b.time as nat, 8) + b.node_public_key@ + b.previous_hash@ + b.nonce@
        + b.transaction.source_signature@ + b.transaction.details.source_public_key@
        + b.transaction.details.destination_public_key@ + le_bytes(
        b.transaction.details.amount as nat,
        8,
    )
}

/// The hash of a block.
pub open spec fn block_hash(b: Block) -> Seq<u8> {
    sha256_of(block_bytes(b))
}

/// Lays out a block's fields for hashing.
pub fn encode_block(block: &Block) -> (r: Vec<u8>)
    ensures
        r@ == block_bytes(*block),
{
    let mut data: Vec<u8> = Vec::new();
    append_u64_le(&mut data, block.time);
    append_bytes(&mut data, block.node_public_key.as_slice());
    append_bytes(&mut data, block.previous_hash.as_slice());
    append_bytes(&mut data, block.nonce.as_slice());
    append_bytes(&mut data, block.transaction.source_signature.as_slice());
    append_bytes(&mut data, block.transaction.details.source_public_key.as_slice());
    append_bytes(&mut data, block.transaction.details.destination_public_key.as_slice());
    append_u64_le(&mut data, block.transaction.details.amount);
    assert(data@ =~= block_bytes(*block));
    data
}

/// The hash of a block: the SHA-256 digest of its fields.
pub fn hash_block(block: &Block) -> (r: BlockHash)
    ensures
        r@ == block_hash(*block),
        r@.len() == 32,
{
    let data = encode_block(block);
    let digest = sha256(&data);
    let r = to_32bytes(digest.as_slice());
    assert(fit32(digest@) =~= digest@);
    r
}

} // verus!
