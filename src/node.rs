//! A node's ledger state: its identity, its chain store and the tip it
//! extends, with the rules for taking in blocks.
use crate::bytes::hash_equal;
use crate::hashing::{block_hash, hash_block};
use crate::ledger::{block_is_valid, valid_block, ChainStore, MAX_BLOCKS};
use crate::types::{read_public_key_from_disk, root, Block, BlockHash, ProtoBlock, PublicKey};
use crate::work::{attempt_now, attempt_outcome};
use vstd::prelude::*;

verus! {

/// What taking in a block did.
#[derive(Debug, Clone, Copy, PartialEq, Eq, Structural)]
pub enum Ingestion {
    /// The block was stored before; nothing changed.
    AlreadyKnown,
    /// The block failed validation; nothing changed.
    Rejected,
    /// The block was stored and extends the tip, so it is the new tip.
    NewTip,
    /// The block was stored, but it does not follow the tip, so the tip stays.
    SideBlock,
}

/// A store is sound when the root is never stored as a block, and each
/// stored block sends coins between two identities and follows the root or
/// a stored block.
pub open spec fn chain_is_sound(chain: Map<Seq<u8>, Block>) -> bool {
    &&& !chain.contains_key(root())
    &&& forall|h: Seq<u8>|
        #[trigger] chain.contains_key(h) ==> !chain[h].transaction.details.is_self_transfer() && (
        chain[h].previous_hash@ == root() || chain.contains_key(chain[h].previous_hash@))
}

/// Taking in `block`, whose hash is `h`, with store `chain` and tip `tip`:
/// the new store, the new tip and what happened. A known block changes
/// nothing. A block is stored when it is valid, its hash is not the root,
/// and the store has room; it becomes the tip only where it follows the tip.
pub open spec fn ingest_as(chain: Map<Seq<u8>, Block>, tip: Seq<u8>, block: Block, h: Seq<u8>) -> (
    Map<Seq<u8>, Block>,
    Seq<u8>,
    Ingestion,
) {
    if chain.contains_key(h) {
        (chain, tip, Ingestion::AlreadyKnown)
    } else if h == root() || chain.len() >= MAX_BLOCKS || !block_is_valid(block, chain) {
        (chain, tip, Ingestion::Rejected)
    } else if block.previous_hash@ == tip {
        (chain.insert(h, block), h, Ingestion::NewTip)
    } else {
        (chain.insert(h, block), tip, Ingestion::SideBlock)
    }
}

/// Taking in `block` under its own hash.
pub open spec fn ingest(chain: Map<Seq<u8>, Block>, tip: Seq<u8>, block: Block) -> (
    Map<Seq<u8>, Block>,
    Seq<u8>,
    Ingestion,
) {
    ingest_as(chain, tip, block, block_hash(block))
}

/// One step of the mining loop, from store `chain0` and tip `tip0` to
/// `chain1` and `tip1`: an accepted attempt `a` is taken in as a block and
/// nothing is left to retry; a rejected one changes nothing and is retried.
pub open spec fn mining_step(
    chain0: Map<Seq<u8>, Block>,
    tip0: Seq<u8>,
    chain1: Map<Seq<u8>, Block>,
    tip1: Seq<u8>,
    a: Result<Block, ProtoBlock>,
    r: Option<ProtoBlock>,
) -> bool {
    match a {
        Ok(b) => r == None::<ProtoBlock> && chain1 == ingest(chain0, tip0, b).0 && tip1 == ingest(
            chain0,
            tip0,
            b,
        ).1,
        Err(p) => r == Some(p) && chain1 == chain0 && tip1 == tip0,
    }
}

/// A node's identity, its chain store, and the hash of the block it treats as
/// the head of the chain.
pub struct Node {
    public_key: PublicKey,
    blockchain: ChainStore,
    tip_hash: BlockHash,
}

impl Node {
    pub closed spec fn wf(&self) -> bool {
        &&& self.blockchain.wf()
        &&& chain_is_sound(self.blockchain@)
        &&& (self.tip_hash@ == root() || self.blockchain@.contains_key(self.tip_hash@))
    }

    /// The node's identity, credited for the blocks it mines.
    pub closed spec fn key(&self) -> PublicKey {
        self.public_key
    }

    /// The stored blocks, by hash.
    pub closed spec fn chain(&self) -> Map<Seq<u8>, Block> {
        self.blockchain@
    }

    /// The hash of the head of the chain.
    pub closed spec fn tip(&self) -> BlockHash {
        self.tip_hash
    }

    /// What holds of every node: its store is sound, and its tip is the root
    /// or a stored block.
    pub proof fn lemma_invariants(&self)
        requires
            self.wf(),
        ensures
            chain_is_sound(self.chain()),
            self.tip()@ == root() || self.chain().contains_key(self.tip()@),
            self.chain().dom().finite(),
            self.chain().len() <= MAX_BLOCKS,
    {
        self.blockchain.lemma_wf();
    }

    /// A node with its own identity, no blocks, and the root as its tip.
    pub fn new() -> (r: Node)
        ensures
            r.wf(),
            r.key()@ == Seq::new(128, |i: int| 0u8),
            r.chain() == Map::<Seq<u8>, Block>::empty(),
            r.tip()@ == root(),
    {
        let tip_hash: BlockHash = [0u8; 32];
        assert(tip_hash@ =~= root());
        Node { public_key: read_public_key_from_disk(), blockchain: ChainStore::new(), tip_hash }
    }

    pub fn public_key(&self) -> (r: PublicKey)
        ensures
            r == self.key(),
    {
        self.public_key
    }

    pub fn tip_hash(&self) -> (r: BlockHash)
        ensures
            r == self.tip(),
    {
        self.tip_hash
    }

    pub fn blockchain(&self) -> (r: &ChainStore)
        requires
            self.wf(),
        ensures
            r.wf(),
            r@ == self.chain(),
    {
        &self.blockchain
    }
}

/// Takes in `block` under the hash `hash`: a known hash changes nothing; a
/// valid block is stored, and becomes the tip where it follows it.
pub fn link_block(node: &mut Node, block: Block, hash: BlockHash) -> (r: Ingestion)
    requires
        old(node).wf(),
    ensures
        final(node).wf(),
        final(node).key() == old(node).key(),
        ingest_as(old(node).chain(), old(node).tip()@, block, hash@) == (
            final(node).chain(),
            final(node).tip()@,
            r,
        ),
{
    proof {
        node.blockchain.lemma_wf();
    }
    match node.blockchain.get(&hash) {
        Some(_) => Ingestion::AlreadyKnown,
        None => {
            let root_hash: BlockHash = [0u8; 32];
            assert(root_hash@ =~= root());
            if hash_equal(&hash, &root_hash) || node.blockchain.len() as u64 >= MAX_BLOCKS
                || !valid_block(&block, &node.blockchain) {
                return Ingestion::Rejected;
            }
            let ghost chain0 = node.blockchain@;
            assert(block.previous_hash@ == root() || chain0.contains_key(block.previous_hash@));
            let extends = hash_equal(&block.previous_hash, &node.tip_hash);
            if extends {
                node.tip_hash = hash;
            }
            node.blockchain.insert(hash, block);
            assert forall|h: Seq<u8>| #[trigger]
                node.blockchain@.contains_key(h) implies !node.blockchain@[h].transaction.details.is_self_transfer()
                && (node.blockchain@[h].previous_hash@ == root() || node.blockchain@.contains_key(
                node.blockchain@[h].previous_hash@)) by {
                if h != hash@ {
                    assert(chain0.contains_key(h));
                }
            }
            if extends {
                Ingestion::NewTip
            } else {
                Ingestion::SideBlock
            }
        },
    }
}

/// Takes in a block, from a peer or from mining, under its hash.
pub fn block_received(node: &mut Node, block: Block) -> (r: Ingestion)
    requires
        old(node).wf(),
    ensures
        final(node).wf(),
        final(node).key() == old(node).key(),
        ingest(old(node).chain(), old(node).tip()@, block) == (
            final(node).chain(),
            final(node).tip()@,
            r,
        ),
{
    let hash = hash_block(&block);
    link_block(node, block, hash)
}

/// Takes in a block this node has mined, as any other block.
pub fn block_created(node: &mut Node, block: Block) -> (r: Ingestion)
    requires
        old(node).wf(),
    ensures
        final(node).wf(),
        final(node).key() == old(node).key(),
        ingest(old(node).chain(), old(node).tip()@, block) == (
            final(node).chain(),
            final(node).tip()@,
            r,
        ),
{
    block_received(node, block)
}

/// One mining attempt on `proto_block`, on top of the node's tip, credited to
/// the node, at the current time.
pub fn proof_of_work(node: &Node, proto_block: ProtoBlock) -> (r: Result<Block, ProtoBlock>)
    ensures
        exists|time: u64| attempt_outcome(proto_block, node.key(), node.tip(), time, r),
{
    let r = attempt_now(proto_block, &node.public_key, &node.tip_hash);
    proof {
        let t = choose|t: u64| attempt_outcome(proto_block, node.public_key, node.tip_hash, t, r);
        assert(attempt_outcome(proto_block, node.key(), node.tip(), t, r));
    }
    r
}

/// One turn of the mining loop: a mining attempt on `proto_block`; an
/// accepted block is taken in, and a rejected attempt returns the
/// proto-block to queue again.
pub fn block_generator_step(node: &mut Node, proto_block: ProtoBlock) -> (r: Option<ProtoBlock>)
    requires
        old(node).wf(),
    ensures
        final(node).wf(),
        final(node).key() == old(node).key(),
        exists|time: u64, a: Result<Block, ProtoBlock>|
            attempt_outcome(proto_block, old(node).key(), old(node).tip(), time, a) && mining_step(
                old(node).chain(),
                old(node).tip()@,
                final(node).chain(),
                final(node).tip()@,
                a,
                r,
            ),
{
    let ghost chain0 = node.chain();
    let ghost tip0 = node.tip();
    let ghost key0 = node.key();
    let a = proof_of_work(node, proto_block);
    let ghost time = choose|time: u64| attempt_outcome(proto_block, key0, tip0, time, a);
    let r = match a {
        Ok(block) => {
            block_created(node, block);
            None
        },
        Err(p) => Some(p),
    };
    assert(attempt_outcome(proto_block, key0, tip0, time, a) && mining_step(
        chain0,
        tip0@,
        node.chain(),
        node.tip()@,
        a,
        r,
    ));
    r
}

/// Taking in the same block twice leaves the store and the tip as the first
/// time left them.
pub proof fn lemma_ingest_idempotent(chain: Map<Seq<u8>, Block>, tip: Seq<u8>, block: Block)
    ensures
        ({
            let (chain1, tip1, _) = ingest(chain, tip, block);
            let (chain2, tip2, r2) = ingest(chain1, tip1, block);
            chain2 == chain1 && tip2 == tip1 && r2 != Ingestion::NewTip && r2
                != Ingestion::SideBlock
        }),
{
}

/// A valid block that does not follow the tip is stored under its hash, and
/// the tip stays, whenever the store has room.
pub proof fn lemma_side_block_stored(chain: Map<Seq<u8>, Block>, tip: Seq<u8>, block: Block)
    requires
        !chain.contains_key(block_hash(block)),
        block_hash(block) != root(),
        chain.len() < MAX_BLOCKS,
        block_is_valid(block, chain),
        block.previous_hash@ != tip,
    ensures
        ingest(chain, tip, block).0.contains_key(block_hash(block)),
        ingest(chain, tip, block).0[block_hash(block)] == block,
        ingest(chain, tip, block).1 == tip,
        ingest(chain, tip, block).2 == Ingestion::SideBlock,
{
}

} // verus!
