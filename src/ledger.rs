//! The chain store, balances derived from chain history, and block validation.
use crate::bytes::{hash_equal, key_equal};
use crate::types::{root, Block, BlockHash, PublicKey, Transaction};
use vstd::prelude::*;

verus! {

/// The most blocks a store holds. More would not fit in any machine's memory,
/// and with no more than this a balance over a whole chain fits an `i128`.
pub const MAX_BLOCKS: u64 = 0x4000_0000_0000_0000;

/// Why a chain cannot be walked back to the root.
#[derive(Debug, Clone, Copy, PartialEq, Eq, Structural)]
pub enum ChainError {
    /// A link names a block that is not in the store.
    MissingPrevious,
    /// A block on the way sends coins from an identity to itself.
    SelfTransfer,
    /// The links go on for more blocks than the store holds, so they loop.
    Cycle,
}

/// What a block changes in the balance of `id`: minus what it sends, plus
/// what it receives, plus one coin for mining it.
pub open spec fn credit(b: Block, id: PublicKey) -> int {
    let d = b.transaction.details;
    (if id == d.source_public_key {
        -(d.amount as int)
    } else {
        0int
    }) + (if id == d.destination_public_key {
        d.amount as int
    } else {
        0int
    }) + (if id == b.node_public_key {
        1int
    } else {
        0int
    })
}

/// Walks from `h` back to the root through at most `fuel` blocks, summing
/// what each block on the way does to the balance of `id`.
pub open spec fn walk(chain: Map<Seq<u8>, Block>, h: Seq<u8>, id: PublicKey, fuel: nat) -> Result<
    int,
    ChainError,
>
    decreases fuel,
{
    if h == root() {
        Ok(0)
    } else if !chain.contains_key(h) {
        Err(ChainError::MissingPrevious)
    } else if fuel == 0 {
        Err(ChainError::Cycle)
    } else {
        let b = chain[h];
        if b.transaction.details.is_self_transfer() {
            Err(ChainError::SelfTransfer)
        } else {
            match walk(chain, b.previous_hash@, id, (fuel - 1) as nat) {
                Ok(v) => Ok(v + credit(b, id)),
                Err(e) => Err(e),
            }
        }
    }
}

/// The balance of `id` at the block named `h`: a chain that reaches the root
/// visits each stored block at most once.
pub open spec fn balance(chain: Map<Seq<u8>, Block>, h: Seq<u8>, id: PublicKey) -> Result<
    int,
    ChainError,
> {
    walk(chain, h, id, chain.len())
}

/// A block may be linked when its source can pay its amount at the block it
/// follows, and it does not send coins to its own source.
pub open spec fn block_is_valid(block: Block, chain: Map<Seq<u8>, Block>) -> bool {
    match balance(chain, block.previous_hash@, block.transaction.details.source_public_key) {
        Ok(v) => v >= block.transaction.details.amount && !block.transaction.details.is_self_transfer(),
        Err(_) => false,
    }
}

/// The transactions met walking back from `h` through at most `fuel` stored blocks, newest first.
pub open spec fn history_of(chain: Map<Seq<u8>, Block>, h: Seq<u8>, fuel: nat) -> Seq<Transaction>
    decreases fuel,
{
    if fuel == 0 || !chain.contains_key(h) {
        Seq::empty()
    } else {
        seq![chain[h].transaction] + history_of(chain, chain[h].previous_hash@, (fuel - 1) as nat)
    }
}

/// `r` with `v` added to its value.
pub open spec fn shifted(r: Result<int, ChainError>, v: int) -> Result<int, ChainError> {
    match r {
        Ok(x) => Ok(x + v),
        Err(e) => Err(e),
    }
}

/// Blocks by hash. Each hash is stored once.
pub struct ChainStore {
    entries: Vec<(BlockHash, Block)>,
    model: Ghost<Map<Seq<u8>, Block>>,
}

impl View for ChainStore {
    type V = Map<Seq<u8>, Block>;

    closed spec fn view(&self) -> Map<Seq<u8>, Block> {
        self.model@
    }
}

impl ChainStore {
    pub closed spec fn wf(&self) -> bool {
        &&& self.entries@.len() <= MAX_BLOCKS
        &&& self.model@.dom().finite()
        &&& self.model@.len() == self.entries@.len()
        &&& forall|i: int|
            #![trigger self.entries@[i]]
            0 <= i < self.entries@.len() ==> self.model@.contains_key(self.entries@[i].0@)
                && self.model@[self.entries@[i].0@] == self.entries@[i].1
        &&& forall|i: int, j: int|
            #![trigger self.entries@[i], self.entries@[j]]
            0 <= i < j < self.entries@.len() ==> self.entries@[i].0@ != self.entries@[j].0@
        &&& forall|h: Seq<u8>|
            #![trigger self.model@.contains_key(h)]
            self.model@.contains_key(h) ==> exists|i: int|
                0 <= i < self.entries@.len() && self.entries@[i].0@ == h
    }

    /// What a well-formed store promises of its contents.
    pub proof fn lemma_wf(&self)
        requires
            self.wf(),
        ensures
            self@.dom().finite(),
            self@.len() <= MAX_BLOCKS,
    {
    }

    pub fn new() -> (r: ChainStore)
        ensures
            r.wf(),
            r@ == Map::<Seq<u8>, Block>::empty(),
    {
        ChainStore { entries: Vec::new(), model: Ghost(Map::empty()) }
    }

    /// The number of stored blocks.
    pub fn len(&self) -> (r: usize)
        requires
            self.wf(),
        ensures
            r == self@.len(),
    {
        self.entries.len()
    }

    /// The block stored under `hash`, if any.
    pub fn get(&self, hash: &BlockHash) -> (r: Option<Block>)
        requires
            self.wf(),
        ensures
            match r {
                Some(b) => self@.contains_key(hash@) && self@[hash@] == b,
                None => !self@.contains_key(hash@),
            },
    {
        let mut i: usize = 0;
        while i < self.entries.len()
            invariant
                self.wf(),
                i <= self.entries@.len(),
                forall|k: int| 0 <= k < i ==> self.entries@[k].0@ != hash@,
            decreases self.entries@.len() - i,
        {
            let entry = &self.entries[i];
            if hash_equal(&entry.0, hash) {
                assert(self.entries@[i as int] == *entry);
                return Some(entry.1);
            }
            i = i + 1;
        }
        proof {
            if self.model@.contains_key(hash@) {
                let k = choose|k: int| 0 <= k < self.entries@.len() && self.entries@[k].0@ == hash@;
                assert(self.entries@[k].0@ != hash@);
            }
        }
        None
    }

    /// Stores `block` under a hash not yet stored.
    pub fn insert(&mut self, hash: BlockHash, block: Block)
        requires
            old(self).wf(),
            !old(self)@.contains_key(hash@),
            old(self)@.len() < MAX_BLOCKS,
        ensures
            final(self).wf(),
            final(self)@ == old(self)@.insert(hash@, block),
    {
        let ghost old_entries = self.entries@;
        let ghost old_model = self.model@;
        self.entries.push((hash, block));
        self.model = Ghost(self.model@.insert(hash@, block));
        assert(self.model@.dom() =~= old_model.dom().insert(hash@));
        assert forall|i: int|
            #![trigger self.entries@[i]]
            0 <= i < self.entries@.len() implies self.model@.contains_key(self.entries@[i].0@)
                && self.model@[self.entries@[i].0@] == self.entries@[i].1 by {
            if i < old_entries.len() {
                assert(self.entries@[i] == old_entries[i]);
                assert(old_model.contains_key(old_entries[i].0@));
            }
        }
        assert forall|i: int, j: int|
            #![trigger self.entries@[i], self.entries@[j]]
            0 <= i < j < self.entries@.len() implies self.entries@[i].0@
                != self.entries@[j].0@ by {
            assert(self.entries@[i] == old_entries[i]);
            if j < old_entries.len() {
                assert(self.entries@[j] == old_entries[j]);
            } else {
                assert(old_model.contains_key(old_entries[i].0@));
            }
        }
        assert forall|h: Seq<u8>| #[trigger] self.model@.contains_key(h) implies exists|i: int|
            0 <= i < self.entries@.len() && self.entries@[i].0@ == h by {
            if h == hash@ {
                assert(self.entries@[old_entries.len() as int].0@ == h);
            } else {
                assert(old_model.contains_key(h));
                let k = choose|k: int| 0 <= k < old_entries.len() && old_entries[k].0@ == h;
                assert(self.entries@[k] == old_entries[k]);
            }
        }
    }
}

/// The balance of `id` at the block named `tip_hash`: walking back to the
/// root, each block subtracts what `id` sends, adds what `id` receives, and
/// adds one coin where `id` mined it. Fails where a link is missing, where a
/// block sends coins to its own source, or where the links loop.
pub fn amount(blockchain: &ChainStore, tip_hash: &BlockHash, id: &PublicKey) -> (r: Result<
    i128,
    ChainError,
>)
    requires
        blockchain.wf(),
    ensures
        match r {
            Ok(v) => balance(blockchain@, tip_hash@, *id) == Ok::<int, ChainError>(v as int),
            Err(e) => balance(blockchain@, tip_hash@, *id) == Err::<int, ChainError>(e),
        },
{
    let root_hash: BlockHash = [0u8; 32];
    assert(root_hash@ =~= root());
    let mut hash: BlockHash = *tip_hash;
    let mut value: i128 = 0;
    let mut fuel: usize = blockchain.len();
    let ghost total = blockchain@.len();
    loop
        invariant
            blockchain.wf(),
            root_hash@ == root(),
            total == blockchain@.len(),
            total <= MAX_BLOCKS,
            fuel <= total,
            -((total - fuel) * 0x1_0000_0000_0000_0000) <= value <= (total - fuel)
                * 0x1_0000_0000_0000_0000,
            balance(blockchain@, tip_hash@, *id) == shifted(
                walk(blockchain@, hash@, *id, fuel as nat),
                value as int,
            ),
        decreases fuel,
    {
        if hash_equal(&hash, &root_hash) {
            return Ok(value);
        }
        match blockchain.get(&hash) {
            None => {
                return Err(ChainError::MissingPrevious);
            },
            Some(block) => {
                if fuel == 0 {
                    return Err(ChainError::Cycle);
                }
                let details = block.transaction.details;
                if key_equal(&details.source_public_key, &details.destination_public_key) {
                    return Err(ChainError::SelfTransfer);
                }
                let ghost before = value as int;
                assert(walk(blockchain@, hash@, *id, fuel as nat) == shifted(
                    walk(blockchain@, block.previous_hash@, *id, (fuel - 1) as nat),
                    credit(block, *id),
                ));
                if key_equal(id, &details.source_public_key) {
                    value = value - details.amount as i128;
                }
                if key_equal(id, &details.destination_public_key) {
                    value = value + details.amount as i128;
                }
                if key_equal(id, &block.node_public_key) {
                    value = value + 1;
                }
                assert(value as int == before + credit(block, *id));
                hash = block.previous_hash;
                fuel = fuel - 1;
            },
        }
    }
}

/// Whether `block` may be linked into `blockchain`. Proof of work and
/// signatures are checked elsewhere.
pub fn valid_block(block: &Block, blockchain: &ChainStore) -> (r: bool)
    requires
        blockchain.wf(),
    ensures
        r == block_is_valid(*block, blockchain@),
{
    let details = &block.transaction.details;
    match amount(blockchain, &block.previous_hash, &details.source_public_key) {
        Ok(value) => value >= details.amount as i128 && !key_equal(
            &details.source_public_key,
            &details.destination_public_key,
        ),
        Err(_) => false,
    }
}

/// The transactions from the block named `tip` back to the first block that
/// is not stored, newest first, through at most as many blocks as are stored.
pub fn history(blockchain: &ChainStore, tip: &BlockHash) -> (r: Vec<Transaction>)
    requires
        blockchain.wf(),
    ensures
        r@ == history_of(blockchain@, tip@, blockchain@.len()),
{
    let mut out: Vec<Transaction> = Vec::new();
    let mut hash: BlockHash = *tip;
    let mut fuel: usize = blockchain.len();
    loop
        invariant
            blockchain.wf(),
            out@ + history_of(blockchain@, hash@, fuel as nat) == history_of(
                blockchain@,
                tip@,
                blockchain@.len(),
            ),
        decreases fuel,
    {
        if fuel == 0 {
            assert(out@ + history_of(blockchain@, hash@, 0) =~= out@);
            return out;
        }
        match blockchain.get(&hash) {
            None => {
                assert(out@ + history_of(blockchain@, hash@, fuel as nat) =~= out@);
                return out;
            },
            Some(block) => {
                let ghost rest = history_of(blockchain@, block.previous_hash@, (fuel - 1) as nat);
                out.push(block.transaction);
                assert(out@ + rest =~= out@.drop_last() + (seq![block.transaction] + rest));
                hash = block.previous_hash;
                fuel = fuel - 1;
            },
        }
    }
}

/// The hash reached from `h` by following `n` previous-block links.
pub open spec fn ancestor(chain: Map<Seq<u8>, Block>, h: Seq<u8>, n: nat) -> Seq<u8>
    decreases n,
{
    if n == 0 {
        h
    } else {
        ancestor(chain, chain[h].previous_hash@, (n - 1) as nat)
    }
}

/// Every identity has balance zero at the root, whatever the store holds.
pub proof fn lemma_root_balance(chain: Map<Seq<u8>, Block>, id: PublicKey)
    ensures
        balance(chain, root(), id) == Ok::<int, ChainError>(0),
{
}

/// A block that sends coins from an identity to itself is never valid.
pub proof fn lemma_self_transfer_rejected(block: Block, chain: Map<Seq<u8>, Block>)
    requires
        block.transaction.details.is_self_transfer(),
    ensures
        !block_is_valid(block, chain),
{
}

/// A walk from `h` fails when a self-transfer block is met `n` links back.
pub proof fn lemma_walk_meets_self_transfer(
    chain: Map<Seq<u8>, Block>,
    h: Seq<u8>,
    id: PublicKey,
    n: nat,
    fuel: nat,
)
    requires
        forall|k: nat|
            k <= n ==> #[trigger] ancestor(chain, h, k) != root() && chain.contains_key(
                ancestor(chain, h, k),
            ),
        chain[ancestor(chain, h, n)].transaction.details.is_self_transfer(),
    ensures
        walk(chain, h, id, fuel) is Err,
    decreases n,
{
    assert(ancestor(chain, h, 0) == h);
    if fuel > 0 && n > 0 && !chain[h].transaction.details.is_self_transfer() {
        let prev = chain[h].previous_hash@;
        assert forall|k: nat| k <= (n - 1) as nat implies #[trigger] ancestor(chain, prev, k)
            != root() && chain.contains_key(ancestor(chain, prev, k)) by {
            assert(ancestor(chain, h, k + 1) == ancestor(chain, prev, k));
        }
        assert(ancestor(chain, h, n) == ancestor(chain, prev, (n - 1) as nat));
        lemma_walk_meets_self_transfer(chain, prev, id, (n - 1) as nat, (fuel - 1) as nat);
    }
}

/// A block is rejected when any block it builds on, `n` links back from the
/// one it follows, sends coins from an identity to itself.
pub proof fn lemma_self_transfer_ancestor_rejected(
    block: Block,
    chain: Map<Seq<u8>, Block>,
    n: nat,
)
    requires
        forall|k: nat|
            k <= n ==> #[trigger] ancestor(chain, block.previous_hash@, k) != root()
                && chain.contains_key(ancestor(chain, block.previous_hash@, k)),
        chain[ancestor(chain, block.previous_hash@, n)].transaction.details.is_self_transfer(),
    ensures
        !block_is_valid(block, chain),
{
    lemma_walk_meets_self_transfer(
        chain,
        block.previous_hash@,
        block.transaction.details.source_public_key,
        n,
        chain.len(),
    );
}

/// Where the source of a transfer has balance `b` at the block it follows,
/// the block is valid exactly when it spends no more than `b`.
pub proof fn lemma_spend_limit(block: Block, chain: Map<Seq<u8>, Block>, b: int)
    requires
        balance(chain, block.previous_hash@, block.transaction.details.source_public_key) == Ok::<
            int,
            ChainError,
        >(b),
        !block.transaction.details.is_self_transfer(),
    ensures
        block_is_valid(block, chain) <==> block.transaction.details.amount <= b,
{
}

} // verus!
