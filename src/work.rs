//! Proof of work: one mining attempt at a time.
use crate::bytes::{lemma_le_value_bound, lemma_le_value_injective, le_value, place, to_32bytes};
use crate::hashing::{block_hash, hash_block};
use crate::types::{Block, BlockHash, ProtoBlock, PublicKey};
use num::BigUint;
use vstd::arithmetic::div_mod::lemma_small_mod;
use vstd::prelude::*;

verus! {

/// Relies on num's `BigUint`: `from_bytes_le` reads each operand as a
/// little-endian number, `+` adds them, and `to_bytes_le` gives the sum's
/// little-endian bytes.
#[verifier::external_body]
fn le_add(a: &[u8], b: &[u8]) -> (r: Vec<u8>)
    ensures
        le_value(r@) == le_value(a@) + le_value(b@),
{
    (BigUint::from_bytes_le(a) + BigUint::from_bytes_le(b)).to_bytes_le()
}

/// Relies on num's `BigUint`: `from_bytes_le` reads each operand as a
/// little-endian number, and `<` compares them.
#[verifier::external_body]
fn le_less(a: &[u8], b: &[u8]) -> (r: bool)
    ensures
        r == (le_value(a@) < le_value(b@)),
{
    BigUint::from_bytes_le(a) < BigUint::from_bytes_le(b)
}

/// Relies on std's `SystemTime`: seconds since the Unix epoch, or zero for a
/// clock set before it. Nothing is promised of the value.
#[verifier::external_body]
fn timestamp() -> (r: u64) {
    match std::time::SystemTime::now().duration_since(std::time::UNIX_EPOCH) {
        Ok(d) => d.as_secs(),
        Err(_) => 0,
    }
}

/// The bound a block hash, read as a little-endian number, must stay under:
/// 2^255 - 1.
pub open spec fn difficulty() -> nat {
    (128 * place(31) - 1) as nat
}

/// How many nonces there are: 256^32.
pub open spec fn nonce_space() -> nat {
    place(32)
}

/// Whether a block hash is small enough for the block to be accepted.
pub open spec fn hash_meets_difficulty(h: Seq<u8>) -> bool {
    le_value(h) < difficulty()
}

/// The block that mining `p` on top of `tip` at `time` proposes.
pub open spec fn candidate(p: ProtoBlock, miner: PublicKey, tip: BlockHash, time: u64) -> Block {
    Block {
        time,
        node_public_key: miner,
        previous_hash: tip,
        nonce: p.nonce,
        transaction: p.transaction,
    }
}

/// `next` carries the transaction of `p`, with the nonce one higher
/// (wrapping from the last nonce to zero).
pub open spec fn is_retry_of(next: ProtoBlock, p: ProtoBlock) -> bool {
    &&& next.transaction == p.transaction
    &&& le_value(next.nonce@) == (le_value(p.nonce@) + 1) % nonce_space()
}

/// The outcome of one mining attempt: the candidate block where its hash
/// meets the difficulty, and else the proto-block to try next.
pub open spec fn attempt_outcome(
    p: ProtoBlock,
    miner: PublicKey,
    tip: BlockHash,
    time: u64,
    r: Result<Block, ProtoBlock>,
) -> bool {
    let b = candidate(p, miner, tip, time);
    if hash_meets_difficulty(block_hash(b)) {
        r == Ok::<Block, ProtoBlock>(b)
    } else {
        match r {
            Ok(_) => false,
            Err(next) => is_retry_of(next, p),
        }
    }
}

proof fn lemma_all_ff_value(n: nat)
    ensures
        le_value(Seq::new(n, |i: int| 0xffu8)) == place(n) - 1,
    decreases n,
{
    if n > 0 {
        let s = Seq::new(n, |i: int| 0xffu8);
        assert(s.drop_last() =~= Seq::new((n - 1) as nat, |i: int| 0xffu8));
        lemma_all_ff_value((n - 1) as nat);
    }
}

/// The difficulty bound as 32 little-endian bytes.
fn difficulty_bound() -> (r: [u8; 32])
    ensures
        le_value(r@) == difficulty(),
{
    let mut r: [u8; 32] = [0xffu8; 32];
    r[31] = 0x7f;
    proof {
        let low = Seq::new(31, |i: int| 0xffu8);
        assert(r@.drop_last() =~= low);
        lemma_all_ff_value(31);
    }
    r
}

/// Whether a block hash, read as a little-endian number, is under the difficulty bound.
pub fn meets_difficulty(hash: &BlockHash) -> (r: bool)
    ensures
        r == hash_meets_difficulty(hash@),
{
    let bound = difficulty_bound();
    le_less(hash.as_slice(), bound.as_slice())
}

/// The nonce after `nonce`, both read as little-endian numbers; the last
/// nonce is followed by zero.
pub fn next_nonce(nonce: &[u8; 32]) -> (r: [u8; 32])
    ensures
        le_value(r@) == (le_value(nonce@) + 1) % nonce_space(),
{
    let one: [u8; 1] = [1u8; 1];
    proof {
        assert(one@.len() == 1);
        assert(one@[0] == 1u8);
        assert(one@.last() == 1u8);
        assert(((one@.len() - 1) as nat) == 0);
        assert(one@.drop_last() =~= Seq::<u8>::empty());
        assert(le_value(Seq::<u8>::empty()) == 0);
        assert(place(0) == 1);
        assert(le_value(one@) == 1);
    }
    let sum = le_add(nonce.as_slice(), one.as_slice());
    to_32bytes(sum.as_slice())
}

/// One mining attempt: builds the block that `proto_block` proposes on top
/// of `tip`, mined by `miner` at `time`, and returns it where its hash meets
/// the difficulty; else returns the proto-block with the next nonce.
pub fn attempt(proto_block: ProtoBlock, miner: &PublicKey, tip: &BlockHash, time: u64) -> (r: Result<
    Block,
    ProtoBlock,
>)
    ensures
        attempt_outcome(proto_block, *miner, *tip, time, r),
{
    let block = Block {
        time,
        node_public_key: *miner,
        previous_hash: *tip,
        nonce: proto_block.nonce,
        transaction: proto_block.transaction,
    };
    let hash = hash_block(&block);
    if meets_difficulty(&hash) {
        Ok(block)
    } else {
        Err(ProtoBlock { nonce: next_nonce(&proto_block.nonce), transaction: proto_block.transaction })
    }
}

/// One mining attempt at the current time.
pub fn attempt_now(proto_block: ProtoBlock, miner: &PublicKey, tip: &BlockHash) -> (r: Result<
    Block,
    ProtoBlock,
>)
    ensures
        exists|time: u64| attempt_outcome(proto_block, *miner, *tip, time, r),
{
    let time = timestamp();
    attempt(proto_block, miner, tip, time)
}

/// A retried proto-block's nonce is exactly one above the one before it,
/// unless that was the last nonce: each retry counts up by one.
pub proof fn lemma_retry_counts_up(p: ProtoBlock, next: ProtoBlock)
    requires
        is_retry_of(next, p),
        le_value(p.nonce@) + 1 < nonce_space(),
    ensures
        le_value(next.nonce@) == le_value(p.nonce@) + 1,
        le_value(next.nonce@) > le_value(p.nonce@),
{
    lemma_small_mod((le_value(p.nonce@) + 1) as nat, nonce_space());
}

/// A retry is determined by the proto-block it retries: there is one
/// 32-byte nonce for each value.
pub proof fn lemma_retry_unique(p: ProtoBlock, a: ProtoBlock, b: ProtoBlock)
    requires
        is_retry_of(a, p),
        is_retry_of(b, p),
    ensures
        a == b,
{
    lemma_le_value_injective(a.nonce@, b.nonce@);
    assert(a.nonce =~= b.nonce);
}

/// Every nonce is below the number of nonces, so a retry of the last nonce
/// is the only one that wraps.
pub proof fn lemma_nonce_in_range(p: ProtoBlock)
    ensures
        le_value(p.nonce@) < nonce_space(),
{
    lemma_le_value_bound(p.nonce@);
}

} // verus!
