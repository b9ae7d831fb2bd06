use fcoin::{
    amount, block_received, link_block, hash_block, history, valid_block, Block, BlockHash, ChainError,
    ChainStore, Ingestion, Node, PublicKey, Transaction, TransactionDetails,
};

const ROOT: BlockHash = [0; 32];

fn key(b: u8) -> PublicKey {
    [b; 128]
}

fn block(prev: BlockHash, miner: u8, src: u8, dst: u8, amount: u64, nonce: u8) -> Block {
    let details = TransactionDetails::new(key(src), key(dst), amount);
    let mut n = [0u8; 32];
    n[0] = nonce;
    Block::new(7, key(miner), prev, n, Transaction::new(details, [0; 128]))
}

fn balance_at(node: &Node, who: u8) -> i128 {
    amount(node.blockchain(), &node.tip_hash(), &key(who)).unwrap()
}

/// Mines `count` zero-amount blocks on the tip, each crediting `miner` one coin.
fn mine_rewards(node: &mut Node, miner: u8, count: u8) {
    for i in 0..count {
        let b = block(node.tip_hash(), miner, 40, 41, 0, i);
        assert_eq!(block_received(node, b), Ingestion::NewTip);
    }
}

#[test]
fn balance_at_root_is_zero() {
    let mut node = Node::new();
    mine_rewards(&mut node, 1, 3);
    for who in [0u8, 1, 40, 41, 99] {
        assert_eq!(amount(node.blockchain(), &ROOT, &key(who)), Ok(0));
    }
}

#[test]
fn ingesting_twice_changes_nothing() {
    let mut node = Node::new();
    let b = block(ROOT, 1, 2, 3, 0, 0);
    assert_eq!(block_received(&mut node, b), Ingestion::NewTip);
    let tip = node.tip_hash();
    let len = node.blockchain().len();
    assert_eq!(block_received(&mut node, b), Ingestion::AlreadyKnown);
    assert_eq!(node.tip_hash(), tip);
    assert_eq!(node.blockchain().len(), len);
    assert_eq!(tip, hash_block(&b));
}

#[test]
fn side_block_is_stored_but_not_tip() {
    let mut node = Node::new();
    mine_rewards(&mut node, 1, 2);
    let tip = node.tip_hash();
    // Valid, but follows the root rather than the tip.
    let side = block(ROOT, 5, 2, 3, 0, 77);
    assert_eq!(block_received(&mut node, side), Ingestion::SideBlock);
    assert_eq!(node.tip_hash(), tip);
    let h = hash_block(&side);
    let stored = node.blockchain().get(&h).unwrap();
    assert_eq!(stored.node_public_key, key(5));
    assert_eq!(node.blockchain().len(), 3);
}

#[test]
fn self_transfer_is_rejected() {
    let mut node = Node::new();
    mine_rewards(&mut node, 4, 5);
    let b = block(node.tip_hash(), 1, 4, 4, 1, 0);
    assert!(!valid_block(&b, node.blockchain()));
    assert_eq!(block_received(&mut node, b), Ingestion::Rejected);
    let zero = block(ROOT, 1, 6, 6, 0, 0);
    assert!(!valid_block(&zero, node.blockchain()));
}

#[test]
fn self_transfer_deep_in_chain_fails_the_walk() {
    let mut store = ChainStore::new();
    let mut k1 = [0u8; 32];
    k1[0] = 1;
    let mut k2 = [0u8; 32];
    k2[0] = 2;
    store.insert(k1, block(ROOT, 1, 3, 3, 0, 0));
    store.insert(k2, block(k1, 1, 4, 5, 0, 0));
    assert_eq!(amount(&store, &k2, &key(1)), Err(ChainError::SelfTransfer));
    let on_top = block(k2, 1, 4, 5, 0, 1);
    assert!(!valid_block(&on_top, &store));
}

#[test]
fn missing_previous_fails_the_walk() {
    let store = ChainStore::new();
    let mut k = [0u8; 32];
    k[5] = 9;
    assert_eq!(amount(&store, &k, &key(1)), Err(ChainError::MissingPrevious));
    let orphan = block(k, 1, 2, 3, 0, 0);
    assert!(!valid_block(&orphan, &store));
    let mut node = Node::new();
    assert_eq!(block_received(&mut node, orphan), Ingestion::Rejected);
    assert_eq!(node.blockchain().len(), 0);
}

#[test]
fn looping_links_fail_the_walk() {
    let mut store = ChainStore::new();
    let mut k1 = [0u8; 32];
    k1[0] = 1;
    let mut k2 = [0u8; 32];
    k2[0] = 2;
    store.insert(k1, block(k2, 1, 3, 4, 0, 0));
    store.insert(k2, block(k1, 1, 3, 4, 0, 0));
    assert_eq!(amount(&store, &k1, &key(1)), Err(ChainError::Cycle));
}

#[test]
fn spending_more_than_the_balance_is_rejected() {
    let mut node = Node::new();
    mine_rewards(&mut node, 1, 4);
    assert_eq!(balance_at(&node, 1), 4);
    let too_much = block(node.tip_hash(), 9, 1, 2, 5, 0);
    assert!(!valid_block(&too_much, node.blockchain()));
    assert_eq!(block_received(&mut node, too_much), Ingestion::Rejected);
    let exact = block(node.tip_hash(), 9, 1, 2, 4, 0);
    assert!(valid_block(&exact, node.blockchain()));
    assert_eq!(block_received(&mut node, exact), Ingestion::NewTip);
    assert_eq!(balance_at(&node, 1), 0);
    assert_eq!(balance_at(&node, 2), 4);
    assert_eq!(balance_at(&node, 9), 1);
}

#[test]
fn unfunded_first_transfer_is_rejected() {
    // At the root every balance is zero, so a first block can move no coins.
    let mut node = Node::new();
    let b = block(ROOT, 13, 12, 10, 10, 0);
    assert_eq!(block_received(&mut node, b), Ingestion::Rejected);
    let free = block(ROOT, 13, 12, 10, 0, 0);
    assert_eq!(block_received(&mut node, free), Ingestion::NewTip);
    assert_eq!(balance_at(&node, 10), 0);
    assert_eq!(balance_at(&node, 13), 1);
}

#[test]
fn funded_transfer_scenario() {
    // A (10) earns ten coins by mining, then M (13) mines a transfer of them to B (11).
    let mut node = Node::new();
    mine_rewards(&mut node, 10, 10);
    assert_eq!(balance_at(&node, 10), 10);
    let tip = node.tip_hash();
    let eleven = block(tip, 13, 10, 11, 11, 0);
    assert_eq!(block_received(&mut node, eleven), Ingestion::Rejected);
    let ten = block(tip, 13, 10, 11, 10, 0);
    assert_eq!(block_received(&mut node, ten), Ingestion::NewTip);
    assert_eq!(node.tip_hash(), hash_block(&ten));
    assert_eq!(balance_at(&node, 10), 0);
    assert_eq!(balance_at(&node, 11), 10);
    assert_eq!(balance_at(&node, 13), 1);
    // The same transfer on a stale tip is stored aside and leaves the tip.
    let stale = block(tip, 14, 10, 11, 10, 1);
    assert_eq!(block_received(&mut node, stale), Ingestion::SideBlock);
    assert_eq!(node.tip_hash(), hash_block(&ten));
}

#[test]
fn first_of_two_siblings_wins_the_tip() {
    let mut node = Node::new();
    mine_rewards(&mut node, 1, 1);
    let tip = node.tip_hash();
    let first = block(tip, 2, 20, 21, 0, 1);
    let second = block(tip, 3, 20, 21, 0, 2);
    assert_eq!(block_received(&mut node, first), Ingestion::NewTip);
    assert_eq!(block_received(&mut node, second), Ingestion::SideBlock);
    assert_eq!(node.tip_hash(), hash_block(&first));
    assert_eq!(block_received(&mut node, second), Ingestion::AlreadyKnown);
    assert_eq!(node.tip_hash(), hash_block(&first));
    assert!(node.blockchain().get(&hash_block(&second)).is_some());
    // Building on the side block stores it aside too: it is never promoted.
    let child = block(hash_block(&second), 3, 20, 21, 0, 3);
    assert_eq!(block_received(&mut node, child), Ingestion::SideBlock);
    assert_eq!(node.tip_hash(), hash_block(&first));
}

#[test]
fn history_lists_transactions_newest_first() {
    let mut node = Node::new();
    let a = block(ROOT, 1, 2, 3, 0, 0);
    block_received(&mut node, a);
    let b = block(node.tip_hash(), 1, 1, 3, 1, 0);
    block_received(&mut node, b);
    let h = history(node.blockchain(), &node.tip_hash());
    assert_eq!(h.len(), 2);
    assert_eq!(h[0].details.amount, 1);
    assert_eq!(h[0].details.source_public_key, key(1));
    assert_eq!(h[1].details.source_public_key, key(2));
    assert!(history(node.blockchain(), &ROOT).is_empty());
}

#[test]
fn link_block_files_under_the_given_hash() {
    let mut node = Node::new();
    let b = block(ROOT, 1, 2, 3, 0, 0);
    assert_eq!(link_block(&mut node, b, ROOT), Ingestion::Rejected);
    assert_eq!(node.blockchain().len(), 0);
    let h = [5u8; 32];
    assert_eq!(link_block(&mut node, b, h), Ingestion::NewTip);
    assert_eq!(node.tip_hash(), h);
    assert!(node.blockchain().get(&h).is_some());
    assert!(node.blockchain().get(&hash_block(&b)).is_none());
    assert_eq!(link_block(&mut node, b, h), Ingestion::AlreadyKnown);
    assert_eq!(balance_at(&node, 1), 1);
}
