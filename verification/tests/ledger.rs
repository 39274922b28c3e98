use copernicus::Block;
use copernicus::Blockchain;
use copernicus::ChainError;
use copernicus::blockchain::GENESIS_PREV_HASH;
use copernicus::blockchain::content_hash;

fn mk(number: u64, timestamp: u64, prev_hash: u64, payload: Vec<u8>) -> Block {
    let hash = content_hash(number, timestamp, prev_hash, payload.as_slice());
    Block { number, timestamp, prev_hash, payload, hash }
}

#[test]
fn empty_ledger_has_no_tip() {
    let chain = Blockchain::new();
    assert_eq!(chain.len(), 0);
    assert!(chain.latest_block().is_none());
    assert!(chain.get_block_by_hash(0).is_none());
    assert!(chain.validate());
}

#[test]
fn genesis_then_next_block_scenario() {
    let mut chain = Blockchain::new();
    let genesis = mk(0, 100, GENESIS_PREV_HASH, vec![]);
    let h0 = genesis.hash;
    assert!(chain.add_block(genesis).is_ok());
    let tip = chain.latest_block().unwrap();
    assert_eq!(tip.number, 0);
    assert_eq!(tip.hash, h0);

    let block1 = mk(1, 101, h0, vec![1]);
    assert!(chain.add_block(block1).is_ok());
    assert!(chain.validate());
    assert_eq!(chain.len(), 2);

    let forged = mk(2, 102, 0xdeadbeef, vec![]);
    let r = chain.add_block(forged);
    assert!(matches!(r, Err(ChainError::BrokenLink)));
    assert_eq!(chain.len(), 2);
}

#[test]
fn stale_prev_hash_rejected() {
    let mut chain = Blockchain::new();
    let genesis = mk(0, 5, GENESIS_PREV_HASH, vec![9, 9]);
    let h0 = genesis.hash;
    chain.add_block(genesis).unwrap();

    let stale = mk(1, 6, h0 ^ 1, vec![]);
    let r = chain.add_block(stale);
    assert!(matches!(r, Err(ChainError::BrokenLink)));
    assert_eq!(chain.len(), 1);
    assert!(chain.validate());
}

#[test]
fn wrong_number_rejected() {
    let mut chain = Blockchain::new();
    let genesis = mk(0, 5, GENESIS_PREV_HASH, vec![]);
    let h0 = genesis.hash;
    chain.add_block(genesis).unwrap();

    let wrong = mk(7, 6, h0, vec![]);
    let r = chain.add_block(wrong);
    assert!(matches!(r, Err(ChainError::BrokenLink)));
    assert_eq!(chain.len(), 1);
}

#[test]
fn hash_mismatch_rejected() {
    let mut chain = Blockchain::new();
    let genesis = mk(0, 5, GENESIS_PREV_HASH, vec![]);
    let h0 = genesis.hash;
    chain.add_block(genesis).unwrap();

    let mut tampered = mk(1, 6, h0, vec![3]);
    tampered.hash = tampered.hash.wrapping_add(1);
    let r = chain.add_block(tampered);
    assert!(matches!(r, Err(ChainError::HashMismatch)));
    assert_eq!(chain.len(), 1);
    assert!(chain.validate());
}

#[test]
fn validate_true_after_each_append() {
    let mut chain = Blockchain::new();
    let mut prev = GENESIS_PREV_HASH;
    for n in 0..5u64 {
        let block = mk(n, 1000 + n, prev, vec![n as u8]);
        prev = block.hash;
        assert!(chain.add_block(block).is_ok());
        assert!(chain.validate());
        assert_eq!(chain.len() as u64, n + 1);
    }
}

#[test]
fn get_by_hash_finds_every_block() {
    let mut chain = Blockchain::new();
    let mut prev = GENESIS_PREV_HASH;
    let mut hashes = Vec::new();
    for n in 0..4u64 {
        let block = mk(n, 20 + n, prev, vec![n as u8, n as u8]);
        prev = block.hash;
        hashes.push(block.hash);
        chain.add_block(block).unwrap();
    }
    for (n, h) in hashes.iter().enumerate() {
        let found = chain.get_block_by_hash(*h).unwrap();
        assert_eq!(found.number, n as u64);
        assert_eq!(found.hash, *h);
    }
    let mut absent = 12345u64;
    while hashes.contains(&absent) {
        absent = absent.wrapping_add(1);
    }
    assert!(chain.get_block_by_hash(absent).is_none());
}

#[test]
fn race_on_same_tip_has_one_winner() {
    let mut chain = Blockchain::new();
    let genesis = mk(0, 5, GENESIS_PREV_HASH, vec![]);
    let h0 = genesis.hash;
    chain.add_block(genesis).unwrap();

    // Two producers build against the same tip; whoever commits second loses.
    let winner = mk(1, 10, h0, vec![1]);
    let loser = mk(1, 11, h0, vec![2]);
    assert!(chain.add_block(winner).is_ok());
    let r = chain.add_block(loser);
    assert!(matches!(r, Err(ChainError::BrokenLink)));
    assert_eq!(chain.len(), 2);
    assert!(chain.validate());
}

#[test]
fn content_hash_exact_values() {
    assert_eq!(content_hash(0, 0, 0, &[]), 0xd94d12186c0f2fb7);
    assert_eq!(content_hash(1, 2, 3, &[4, 5]), 0x0f66dcbf4f6b7d88);
}

#[test]
fn content_hash_depends_on_every_field() {
    let base = content_hash(1, 2, 3, &[4]);
    assert_ne!(content_hash(2, 2, 3, &[4]), base);
    assert_ne!(content_hash(1, 3, 3, &[4]), base);
    assert_ne!(content_hash(1, 2, 4, &[4]), base);
    assert_ne!(content_hash(1, 2, 3, &[5]), base);
    assert_ne!(content_hash(1, 2, 3, &[4, 0]), base);
}
