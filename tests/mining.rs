use fcoin::bytes::to_32bytes;
use fcoin::{
    attempt, block_generator_step, hash_block, meets_difficulty, next_nonce, proof_of_work,
    read_public_key_from_disk, sign, transaction_to_proto_block, Block, Node, ProtoBlock,
    Transaction, TransactionDetails,
};

fn transaction(amount: u64) -> Transaction {
    let details = TransactionDetails::new([1; 128], [2; 128], amount);
    let signature = sign(&details);
    Transaction::new(details, signature)
}

fn nonce_value(n: &[u8; 32]) -> u128 {
    n[..16].iter().rev().fold(0u128, |acc, &b| (acc << 8) | b as u128)
}

#[test]
fn hash_block_is_sha256_of_fields() {
    let mut nonce = [0u8; 32];
    nonce[0] = 9;
    let b = Block::new(0x0102030405060708, [3; 128], [0; 32], nonce, transaction(5));
    let expected: [u8; 32] = [
        94, 111, 54, 161, 239, 222, 15, 199, 175, 199, 55, 139, 33, 133, 65, 227, 107, 42, 179,
        168, 74, 225, 96, 106, 10, 241, 233, 36, 26, 225, 125, 192,
    ];
    assert_eq!(hash_block(&b), expected);
}

#[test]
fn to_32bytes_pads_and_truncates() {
    assert_eq!(to_32bytes(&[]), [0u8; 32]);
    let mut short = [0u8; 32];
    short[0] = 1;
    short[1] = 2;
    assert_eq!(to_32bytes(&[1, 2]), short);
    let mut full = [0u8; 32];
    for (i, b) in full.iter_mut().enumerate() {
        *b = i as u8 + 1;
    }
    assert_eq!(to_32bytes(&full), full);
    let mut long = full.to_vec();
    long.push(0xaa);
    assert_eq!(to_32bytes(&long), full);
}

#[test]
fn next_nonce_counts_up_little_endian() {
    assert_eq!(nonce_value(&next_nonce(&[0; 32])), 1);
    let mut n = [0u8; 32];
    n[0] = 0xff;
    let mut expected = [0u8; 32];
    expected[1] = 1;
    assert_eq!(next_nonce(&n), expected);
    n[1] = 0x12;
    assert_eq!(nonce_value(&next_nonce(&n)), 0x1300);
    assert_eq!(next_nonce(&[0xff; 32]), [0; 32]);
}

#[test]
fn difficulty_bound_is_two_to_the_255_minus_one() {
    assert!(meets_difficulty(&[0; 32]));
    assert!(!meets_difficulty(&[0xff; 32]));
    let mut bound = [0xffu8; 32];
    bound[31] = 0x7f;
    assert!(!meets_difficulty(&bound));
    bound[0] = 0xfe;
    assert!(meets_difficulty(&bound));
    let mut high = [0u8; 32];
    high[31] = 0x80;
    assert!(!meets_difficulty(&high));
}

#[test]
fn attempts_count_the_nonce_up_until_accepted() {
    let tx = transaction(0);
    let mut proto: ProtoBlock = transaction_to_proto_block(tx);
    assert_eq!(proto.nonce, [0; 32]);
    let miner = [7u8; 128];
    let tip = [3u8; 32];
    for step in 0..200u128 {
        assert_eq!(nonce_value(&proto.nonce), step);
        match attempt(proto, &miner, &tip, 1_000) {
            Ok(block) => {
                assert_eq!(block.time, 1_000);
                assert_eq!(block.node_public_key, miner);
                assert_eq!(block.previous_hash, tip);
                assert_eq!(block.nonce, proto.nonce);
                assert!(meets_difficulty(&hash_block(&block)));
                return;
            }
            Err(next) => {
                let candidate = Block::new(1_000, miner, tip, proto.nonce, tx);
                assert!(!meets_difficulty(&hash_block(&candidate)));
                assert_eq!(next.transaction.details.amount, 0);
                assert_eq!(nonce_value(&next.nonce), step + 1);
                proto = next;
            }
        }
    }
    panic!("no nonce among 200 met the difficulty");
}

#[test]
fn proof_of_work_builds_on_the_node_tip() {
    let node = Node::new();
    let mut proto = transaction_to_proto_block(transaction(0));
    for _ in 0..200 {
        match proof_of_work(&node, proto) {
            Ok(block) => {
                assert_eq!(block.previous_hash, node.tip_hash());
                assert_eq!(block.node_public_key, node.public_key());
                return;
            }
            Err(next) => proto = next,
        }
    }
    panic!("no nonce among 200 met the difficulty");
}

#[test]
fn mining_loop_links_the_mined_block() {
    let mut node = Node::new();
    let mut proto = transaction_to_proto_block(transaction(0));
    for _ in 0..200 {
        match block_generator_step(&mut node, proto) {
            None => {
                let tip = node.tip_hash();
                assert_ne!(tip, [0; 32]);
                let block = node.blockchain().get(&tip).unwrap();
                assert_eq!(block.previous_hash, [0; 32]);
                assert_eq!(block.transaction.details.destination_public_key, [2; 128]);
                assert_eq!(node.blockchain().len(), 1);
                return;
            }
            Some(next) => {
                assert_eq!(node.blockchain().len(), 0);
                proto = next;
            }
        }
    }
    panic!("no nonce among 200 met the difficulty");
}

#[test]
fn stub_identity_and_signature_are_zero() {
    assert_eq!(read_public_key_from_disk(), [0; 128]);
    let details = TransactionDetails::new([1; 128], [2; 128], 3);
    assert_eq!(sign(&details), [0; 128]);
    let node = Node::new();
    assert_eq!(node.public_key(), [0; 128]);
    assert_eq!(node.tip_hash(), [0; 32]);
}
